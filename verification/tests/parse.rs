//! Reading headers, combining included files, and sorting the data into channels.

use std::collections::HashMap;

use opencrg::data::{decode_records, Format, Value};
use opencrg::definition::Column;
use opencrg::header::{Mods, Options};
use opencrg::keys::{ModKey, OptionKey, RoadKey};
use opencrg::layout::{check_cross_sections, parse, parse_standalone, route, Parsed};
use opencrg::names::{name_parts, NamePart};
use opencrg::nesting::{check_depth, include_name, MAX_INCLUDE_DEPTH};
use opencrg::scan::scan_header;
use opencrg::{BorderMode, Error, NanMode};

fn no_includes(_: &[String]) -> Result<Vec<u8>, Error> {
    Err(Error::IncludeUnsupported)
}

fn parse_alone(file: &[u8]) -> Result<Parsed, Error> {
    parse(file, &no_includes)
}

/// Loads `top` with includes served from `files` by the last name of the chain.
fn load(top: &str, files: &[(&str, String)]) -> Result<Parsed, Error> {
    let files: HashMap<&str, &String> = files.iter().map(|(name, text)| (*name, text)).collect();
    parse(top.as_bytes(), &|chain: &[String]| {
        let name = chain[chain.len() - 1].as_str();
        files
            .get(name)
            .map(|text| text.as_bytes().to_vec())
            .ok_or_else(|| Error::Io {
                path: name.to_string(),
                kind: std::io::ErrorKind::NotFound,
                message: "not found".to_string(),
            })
    })
}

const SMALL: &str = "$ROAD_CRG\nREFERENCE_LINE_INCREMENT = 1.0\n$\n$KD_Definition\n#:LRFI\n\
                     D:long section 1,m\nD:long section 2,m\n$\n$$$$\n 1.0000000 2.0000000\n 3.0000000 4.0000000\n";

fn file_block(name: &str) -> String {
    format!("$ROAD_CRG_FILE\n {name}\n$!\n")
}

fn opts(lines: &str) -> String {
    format!("$ROAD_CRG_OPTS\n{lines}\n$!\n")
}

fn border_v(p: &Parsed) -> Option<BorderMode> {
    p.options.as_ref().and_then(|o| o.border_mode_v)
}

#[test]
fn missing_separator_ends_section_like_the_c_api() {
    let file = b"$KD_Definition\n#:LRFI\nD:long section 1,m\nD:long section 2,m\n$$$$\n 1.0000000 2.0000000\n";
    assert_eq!(parse_alone(file).err(), Some(Error::NoData));
}

#[test]
fn reference_line_xy_is_unsupported() {
    let file = b"$KD_Definition\n#:LRFI\nD:reference line x,m\nD:reference line y,m\n$\n$$$$\n";
    assert!(matches!(parse_alone(file), Err(Error::Unsupported(_))));
}

#[test]
fn header_blocks_and_data_offset() {
    let h = scan_header(SMALL.as_bytes(), false).unwrap();
    assert_eq!(h.includes.len(), 0);
    assert_eq!(h.segments.len(), 1);
    assert_eq!(
        h.segments[0].get(RoadKey::UIncrement).map(Vec::as_slice),
        Some(&b"1.0"[..])
    );
    assert_eq!(h.def.columns, vec![Column::Z, Column::Z]);
    assert_eq!(h.def.long_sections.len(), 2);
    assert!(!h.def.long_sections[0].by_position);
    assert_eq!(h.def.long_sections[1].position, b"2".to_vec());
    let start = h.data_start.unwrap();
    assert_eq!(&SMALL.as_bytes()[start..start + 10], b" 1.0000000");
}

#[test]
fn syntax_errors_carry_the_line_number() {
    let file = "* comment\n$ROAD_CRG\n\nREFERENCE_LINE_START_X 1\n$\n";
    assert_eq!(
        scan_header(file.as_bytes(), false).err(),
        Some(Error::Syntax {
            line: 4,
            reason: "expected `key = value`"
        })
    );
}

#[test]
fn comment_blocks_run_to_the_next_dollar_line() {
    let file = "$CT\nBORDER_MODE_V = 0\n$ROAD_CRG_OPTS\nBORDER_MODE_V = 1\n$\n";
    let h = scan_header(file.as_bytes(), false).unwrap();
    assert!(h.options.is_none());
    assert_eq!(h.data_start, None);
}

#[test]
fn blocks_in_an_included_file_add_up() {
    let blocks = format!("{}{}", opts("BORDER_MODE_V = 0"), opts("BORDER_OFFSET_V = 1"));
    let top = scan_header(blocks.as_bytes(), false).unwrap();
    assert_eq!(top.options.as_ref().unwrap().border_mode_v, None);
    let nested = scan_header(blocks.as_bytes(), true).unwrap();
    let o = nested.options.as_ref().unwrap();
    assert_eq!(o.border_mode_v, Some(BorderMode::Refuse));
    assert_eq!(o.get(OptionKey::BorderOffsetV).map(Vec::as_slice), Some(&b"1"[..]));
}

#[test]
fn names_span_lines_up_to_blanks_and_comments() {
    let top = "$ROAD_CRG_FILE\n* comment\n  in\n  ner ! comment\n  .crg\n$!\n";
    let h = scan_header(top.as_bytes(), false).unwrap();
    assert_eq!(h.includes, vec![b"inner.crg".to_vec()]);
    assert!(load(top, &[("inner.crg", SMALL.to_string())]).is_ok());
}

#[test]
fn least_nested_options_block_wins() {
    let inner = format!("{}{}", opts("BORDER_MODE_V = 0"), SMALL);
    let files = [("inner.crg", inner)];
    let keep = opts("BORDER_MODE_V = 2");
    assert_eq!(
        border_v(&load(&file_block("inner.crg"), &files).unwrap()),
        Some(BorderMode::Refuse)
    );
    let before = format!("{keep}{}", file_block("inner.crg"));
    assert_eq!(border_v(&load(&before, &files).unwrap()), Some(BorderMode::Keep));
    let after = format!("{}{keep}", file_block("inner.crg"));
    assert_eq!(border_v(&load(&after, &files).unwrap()), Some(BorderMode::Keep));

    let deep = format!("{}{}", opts("BORDER_MODE_V = 2"), SMALL);
    let middle = format!("{}{}", file_block("deep.crg"), opts("BORDER_MODE_V = 0"));
    let files = [("deep.crg", deep), ("middle.crg", middle)];
    assert_eq!(
        border_v(&load(&file_block("middle.crg"), &files).unwrap()),
        Some(BorderMode::Refuse)
    );
}

#[test]
fn header_values_apply_in_reading_order() {
    let inner = format!("$ROAD_CRG_MODS\n$!\n$ROAD_CRG\nREFERENCE_LINE_START_X = 0\n$!\n{SMALL}");
    let files = [("inner.crg", inner)];
    let start_x = "$ROAD_CRG\nREFERENCE_LINE_START_X = 100\n$!\n";
    let x = |top: String| load(&top, &files).unwrap().road.get(RoadKey::StartX).cloned();
    assert_eq!(x(format!("{start_x}{}", file_block("inner.crg"))), Some(b"0".to_vec()));
    assert_eq!(x(format!("{}{start_x}", file_block("inner.crg"))), Some(b"100".to_vec()));
}

#[test]
fn include_errors() {
    let top = file_block("inner.crg");
    assert_eq!(parse_standalone(top.as_bytes()).err(), Some(Error::IncludeUnsupported));
    assert!(matches!(
        load(&top, &[]).err(),
        Some(Error::Io { path, kind: std::io::ErrorKind::NotFound, .. }) if path == "inner.crg"
    ));
    let bad = format!("{}{}", opts("BORDER_MODE_U = 7"), SMALL);
    match load(&top, &[("inner.crg", bad)]).err() {
        Some(Error::Include { path, error }) => {
            assert_eq!(path, "inner.crg");
            assert!(matches!(*error, Error::Syntax { line: 2, .. }), "{error:?}");
        }
        other => panic!("{other:?}"),
    }
    let looping = [("inner.crg", file_block("inner.crg"))];
    assert_eq!(load(&top, &looping).err(), Some(Error::IncludeTooDeep));
    assert!(matches!(
        load("$ROAD_CRG_FILE\n$!\n", &[]).err(),
        Some(Error::Missing(_))
    ));
    let twice = format!("{top}{SMALL}");
    assert!(matches!(
        load(&twice, &[("inner.crg", SMALL.to_string())]).err(),
        Some(Error::Invalid(_))
    ));
}

#[test]
fn eight_levels_load_and_nine_do_not() {
    let mut files = vec![("f8.crg", SMALL.to_string())];
    for level in 1..8 {
        files.push((["f1.crg", "f2.crg", "f3.crg", "f4.crg", "f5.crg", "f6.crg", "f7.crg"][level - 1], file_block(&format!("f{}.crg", level + 1))));
    }
    assert!(load(&file_block("f1.crg"), &files).is_ok());
    files[0] = ("f8.crg", file_block("f9.crg"));
    files.push(("f9.crg", SMALL.to_string()));
    assert_eq!(load(&file_block("f1.crg"), &files).err(), Some(Error::IncludeTooDeep));
}

#[test]
fn layout_needs_a_format_and_two_like_long_sections() {
    let no_format = "$KD_Definition\nD:long section 1,m\nD:long section 2,m\n$\n$$$$\n";
    assert_eq!(parse_alone(no_format.as_bytes()).err(), Some(Error::Missing("#: data format")));
    let one = "$KD_Definition\n#:KRFI\nD:long section 1,m\n$\n$$$$\n";
    assert!(matches!(parse_alone(one.as_bytes()), Err(Error::Invalid(_))));
    let mixed = "$KD_Definition\n#:KRFI\nD:long section 1,m\nD:long section at v = 1.0,m\n$\n$$$$\n";
    assert!(matches!(parse_alone(mixed.as_bytes()), Err(Error::Invalid(_))));
    let p = parse_alone(SMALL.as_bytes()).unwrap();
    assert!(p.format.ascii && p.format.long && !p.by_position);
}

#[test]
fn definitions_name_their_errors() {
    let cases = [
        ("D:long section at v 1.0,m", "long section position needs `=`"),
        ("D:long section x,m", "long section needs a number"),
        ("D:long section 1", "long section needs a unit"),
        ("D:long section 1,cm", "long section unit must be m"),
        ("D:reference line heading,rad", "unknown reference line channel"),
        ("D:reference line phi", "reference line channel needs a unit"),
        ("D:reference line slope,rad", "wrong reference line channel unit"),
    ];
    for (line, reason) in cases {
        let file = format!("$KD_Definition\n{line}\n$\n");
        assert_eq!(
            scan_header(file.as_bytes(), false).err(),
            Some(Error::Syntax { line: 2, reason }),
            "{line}"
        );
    }
}

#[test]
fn channels_are_routed_by_column() {
    let file = "$KD_Definition\n#:KRFI\nD:reference line phi,rad\nD:long section at v = 1.0,m\n\
                D:reference line banking,m/m\nD:long section at v = -1.0,m\nD:other channel,m\n$\n$$$$\n";
    let file = format!(
        "{file}{}",
        " 0.5000000 1.0000000 0.0100000 2.0000000 9.0000000 0.2500000 3.0000000 0.0200000 4.0000000 9.0000000"
    );
    let p = parse_alone(file.as_bytes()).unwrap();
    assert_eq!(
        p.def.columns,
        vec![Column::Phi, Column::Z, Column::Bank, Column::Z, Column::Ignored]
    );
    let records = decode_records(&p.data, p.format, 5, 0).unwrap();
    assert_eq!(records.len(), 2);
    // Long section at v = -1 (column 3) comes first.
    let c = route(&records, &p.def.columns, &vec![3, 1], Value::Zero).unwrap();
    let text = |v: &Value| match v {
        Value::Decimal(t) => String::from_utf8(t.clone()).unwrap(),
        Value::Zero => "zero".to_string(),
        _ => "other".to_string(),
    };
    let z: Vec<String> = c.z.iter().map(text).collect();
    assert_eq!(z, ["2.0000000", "1.0000000", "4.0000000", "3.0000000"]);
    let phi: Vec<String> = c.phi.unwrap().iter().map(text).collect();
    assert_eq!(phi, ["zero", "0.2500000"]);
    let bank: Vec<String> = c.bank.unwrap().iter().map(text).collect();
    assert_eq!(bank, ["0.0100000", "0.0200000"]);
    assert!(c.slope.is_none());
    assert_eq!(
        route(&Vec::new(), &p.def.columns, &vec![3, 1], Value::Zero).err(),
        Some(Error::Invalid("data section has no complete record"))
    );
}

#[test]
fn variables_in_names_run_to_the_next_slash() {
    let parts = name_parts(b"$HOME/roads/$SET/x.crg");
    let shown: Vec<String> = parts
        .iter()
        .map(|p| match p {
            NamePart::Text(t) => format!("T{}", String::from_utf8_lossy(t)),
            NamePart::Variable(v) => format!("V{}", String::from_utf8_lossy(v)),
        })
        .collect();
    assert_eq!(shown, ["T", "VHOME", "T/roads/", "VSET", "T/x.crg"]);
}

fn mods(lines: &str) -> String {
    format!("$ROAD_CRG_MODS\n{lines}\n$!\n")
}

#[test]
fn files_in_memory_refuse_includes() {
    assert_eq!(
        parse_standalone(file_block("inner.crg").as_bytes()).err(),
        Some(Error::IncludeUnsupported)
    );
    let p = parse_standalone(SMALL.as_bytes()).unwrap();
    let q = parse_alone(SMALL.as_bytes()).unwrap();
    assert_eq!(p.data, q.data);
    assert_eq!(p.def.columns, q.def.columns);
    assert_eq!(p.road.get(RoadKey::UIncrement), q.road.get(RoadKey::UIncrement));
    assert!(p.options.is_none() && p.mods.is_none());
}

#[test]
fn included_file_loads_as_if_loaded_directly() {
    let inner = format!(
        "$ROAD_CRG\nREFERENCE_LINE_START_X = 7\n$!\n{}{}{SMALL}",
        opts("BORDER_MODE_V = 2"),
        mods("GRID_NAN_MODE = 1")
    );
    let direct = parse_standalone(inner.as_bytes()).unwrap();
    let wrapped = load(&file_block("inner.crg"), &[("inner.crg", inner.clone())]).unwrap();
    for key in [RoadKey::StartX, RoadKey::UIncrement, RoadKey::StartY] {
        assert_eq!(direct.road.get(key), wrapped.road.get(key));
    }
    assert_eq!(border_v(&direct), Some(BorderMode::Keep));
    assert_eq!(border_v(&wrapped), border_v(&direct));
    let nan = |p: &Parsed| p.mods.as_ref().and_then(|m| m.grid_nan_mode);
    assert_eq!(nan(&direct), Some(NanMode::SetZero));
    assert_eq!(nan(&wrapped), nan(&direct));
    assert_eq!(wrapped.data, direct.data);
    assert_eq!(wrapped.def.columns, direct.def.columns);
}

#[test]
fn own_mods_beat_included_ones() {
    let inner = format!("{}{SMALL}", mods("GRID_NAN_MODE = 0\nREFPOINT_X = 5"));
    let files = [("inner.crg", inner)];
    let top = format!("{}{}", mods("GRID_NAN_MODE = 1"), file_block("inner.crg"));
    let p = load(&top, &files).unwrap();
    let m = p.mods.as_ref().unwrap();
    assert_eq!(m.grid_nan_mode, Some(NanMode::SetZero));
    assert_eq!(m.get(ModKey::RefPointX).map(Vec::as_slice), Some(&b"5"[..]));
}

#[test]
fn data_in_two_includes_is_an_error() {
    let top = format!("{}{}", file_block("a.crg"), file_block("b.crg"));
    let files = [("a.crg", SMALL.to_string()), ("b.crg", SMALL.to_string())];
    assert_eq!(
        load(&top, &files).err(),
        Some(Error::Invalid("data given by more than one file"))
    );
    let files = [("a.crg", opts("BORDER_MODE_V = 2")), ("b.crg", SMALL.to_string())];
    let p = load(&top, &files).unwrap();
    assert_eq!(border_v(&p), Some(BorderMode::Keep));
    assert_eq!(p.data, parse_alone(SMALL.as_bytes()).unwrap().data);
}

#[test]
fn later_includes_beat_earlier_ones() {
    let top = format!("{}{}", file_block("a.crg"), file_block("b.crg"));
    let files = [
        ("a.crg", format!("{}{SMALL}", opts("BORDER_MODE_V = 2"))),
        ("b.crg", opts("BORDER_MODE_V = 0")),
    ];
    assert_eq!(border_v(&load(&top, &files).unwrap()), Some(BorderMode::Refuse));
}

#[test]
fn file_border_modes_take_precedence_over_the_caller() {
    let file = format!("{}{SMALL}", opts("BORDER_MODE_U = 3"));
    let p = parse_alone(file.as_bytes()).unwrap();
    assert_eq!(
        Options::border_modes(&p.options, BorderMode::Keep, BorderMode::Repeat),
        (BorderMode::Repeat, BorderMode::Repeat)
    );
    assert_eq!(
        Options::border_modes(&None, BorderMode::Keep, BorderMode::Refuse),
        (BorderMode::Keep, BorderMode::Refuse)
    );
}

#[test]
fn a_mods_block_replaces_the_defaults() {
    let d = Mods::or_defaults(None);
    assert_eq!(d.grid_nan_mode, Some(NanMode::KeepLast));
    for key in [ModKey::RefPointX, ModKey::RefPointY, ModKey::RefPointZ, ModKey::RefPointPhi] {
        assert_eq!(d.get(key).map(Vec::as_slice), Some(&b"0"[..]));
    }
    assert_eq!(d.get(ModKey::ScaleZGrid), None);
    let file = format!("{}{SMALL}", mods("SCALE_Z_GRID = 2"));
    let p = parse_alone(file.as_bytes()).unwrap();
    let m = Mods::or_defaults(p.mods);
    assert_eq!(m.grid_nan_mode, None);
    assert_eq!(m.get(ModKey::RefPointX), None);
    assert_eq!(m.get(ModKey::ScaleZGrid).map(Vec::as_slice), Some(&b"2"[..]));
}

#[test]
fn name_parts_rebuild_the_name() {
    for name in ["$HOME/roads/$SET/x.crg", "plain.crg", "a$", "$", "x/$Y", ""] {
        let mut out = Vec::new();
        for part in name_parts(name.as_bytes()) {
            match part {
                NamePart::Text(t) => out.extend(t),
                NamePart::Variable(v) => {
                    out.push(b'$');
                    out.extend(v);
                }
            }
        }
        assert_eq!(out, name.as_bytes(), "{name}");
    }
}

/// The float a decoded value stands for.
fn number(value: &Value) -> f64 {
    match value {
        Value::Single(bits) => f64::from(f32::from_bits(*bits)),
        Value::Double(bits) => f64::from_bits(*bits),
        Value::Decimal(text) => std::str::from_utf8(text).unwrap().parse().unwrap(),
        Value::Zero => 0.0,
        Value::NotANumber => f64::NAN,
    }
}

fn numbers(values: &[Value]) -> Vec<f64> {
    values.iter().map(number).collect()
}

#[test]
fn border_mode_from_file_options() {
    let file = b"$ROAD_CRG\nREFERENCE_LINE_INCREMENT = 1.0\n$\n$ROAD_CRG_OPTS\nBORDER_MODE_V = 0\n$\n\
                 $KD_Definition\n#:LRFI\nD:long section 1,m\nD:long section 2,m\n$\n$$$$\n 1.0000000 2.0000000\n";
    let p = parse_standalone(file).unwrap();
    assert_eq!(p.options.as_ref().unwrap().border_mode_v, Some(BorderMode::Refuse));
    // Numbered long sections take their v from the (absent) header spacing, in order.
    let numbers_of: Vec<&[u8]> = p.def.long_sections.iter().map(|s| s.position.as_slice()).collect();
    assert_eq!(numbers_of, [&b"1"[..], &b"2"[..]]);
    assert!(p.road.get(RoadKey::VRight).is_none() && p.road.get(RoadKey::VIncrement).is_none());
    let records = decode_records(&p.data, p.format, 2, 0).unwrap();
    let c = route(&records, &p.def.columns, &vec![0, 1], Value::Zero).unwrap();
    assert_eq!(numbers(&c.z), [1.0, 2.0]);
}

#[test]
fn generated_binary_formats() {
    let header = |code: &str| {
        format!(
            "$ROAD_CRG\nREFERENCE_LINE_END_U = 2.0\nREFERENCE_LINE_INCREMENT = 1.0\n$\n$KD_Definition\n#:{code}\n\
             D:reference line phi,rad\nD:long section at v = 1.0,m\nD:long section at v = -1.0,m\n$\n$$$$\n"
        )
        .into_bytes()
    };
    let rows: [[f64; 3]; 3] = [[9.0, 1.0, 2.0], [0.5, 3.0, 4.0], [0.25, 5.0, 6.0]];
    for code in ["KRBI", "KDBI", "LRBI", "LDBI"] {
        let format = Format::from_code(code);
        let mut file = header(code);
        for row in rows {
            let start = file.len();
            for x in row {
                if format.double {
                    file.extend_from_slice(&x.to_be_bytes());
                } else {
                    file.extend_from_slice(&(x as f32).to_be_bytes());
                }
            }
            if format.long {
                file.resize(start + 80, 0);
            }
        }
        let p = parse_standalone(&file).unwrap();
        assert!(p.by_position, "{code}");
        let positions: Vec<f64> = p
            .def
            .long_sections
            .iter()
            .map(|s| std::str::from_utf8(&s.position).unwrap().parse().unwrap())
            .collect();
        assert_eq!(positions, [1.0, -1.0], "{code}");
        // Sorted by position, the long section at v = -1 (column 2) comes first.
        let records = decode_records(&p.data, p.format, 3, 3).unwrap();
        let c = route(&records, &p.def.columns, &vec![2, 1], Value::Zero).unwrap();
        assert_eq!(numbers(&c.z), [2.0, 1.0, 4.0, 3.0, 6.0, 5.0], "{code}");
        assert_eq!(numbers(&c.phi.unwrap()), [0.0, 0.5, 0.25], "{code}");
    }
}

#[test]
fn include_names_are_text_and_depth_is_limited() {
    assert_eq!(include_name(b"roads/inner.crg"), "roads/inner.crg");
    assert_eq!(include_name(b"a\xffb.crg"), "a\u{fffd}b.crg");
    assert_eq!(MAX_INCLUDE_DEPTH, 8);
    assert_eq!(check_depth(7), Ok(()));
    assert_eq!(check_depth(8), Err(Error::IncludeTooDeep));
}

#[test]
fn files_in_memory_fail_at_the_include_block() {
    // The include is refused where it opens, before later lines are read.
    assert_eq!(
        parse_standalone(b"$ROAD_CRG_FILE\n$!\n").err(),
        Some(Error::IncludeUnsupported)
    );
    let later_error = format!("{}$ROAD_CRG\nREFERENCE_LINE_START_X 1\n$\n", file_block("a.crg"));
    assert_eq!(
        parse_standalone(later_error.as_bytes()).err(),
        Some(Error::IncludeUnsupported)
    );
    // A `$` line inside an open block only closes it.
    let closing = format!("$ROAD_CRG\n$ROAD_CRG_FILE\n{SMALL}");
    assert!(parse_standalone(closing.as_bytes()).is_ok());
}

#[test]
fn the_loader_gets_the_chain_of_names_as_written() {
    let asked = std::cell::RefCell::new(Vec::new());
    let files: HashMap<&str, String> = [
        ("middle.crg", file_block("sub/$DIR/deep.crg")),
        ("sub/$DIR/deep.crg", SMALL.to_string()),
    ]
    .into_iter()
    .collect();
    let top = "$ROAD_CRG_FILE\n mid\n dle.crg ! note\n$!\n";
    let p = parse(top.as_bytes(), &|chain: &[String]| {
        asked.borrow_mut().push(chain.to_vec());
        Ok(files[chain[chain.len() - 1].as_str()].as_bytes().to_vec())
    })
    .unwrap();
    assert_eq!(p.data, parse_alone(SMALL.as_bytes()).unwrap().data);
    assert_eq!(
        asked.into_inner(),
        vec![
            vec!["middle.crg".to_string()],
            vec!["middle.crg".to_string(), "sub/$DIR/deep.crg".to_string()],
        ]
    );
}

#[test]
fn a_grid_needs_two_cross_sections() {
    assert_eq!(check_cross_sections(0), Err(Error::Invalid("fewer than two cross sections")));
    assert_eq!(check_cross_sections(1), Err(Error::Invalid("fewer than two cross sections")));
    assert_eq!(check_cross_sections(2), Ok(()));
}

#[test]
fn parsed_grid_has_one_value_per_record_and_long_section() {
    let header = "$ROAD_CRG\nREFERENCE_LINE_INCREMENT = 1.0\n$\n$KD_Definition\n#:LRFI\n\
                  D:reference line phi,rad\nD:long section 1,m\nD:long section 2,m\n\
                  D:long section 3,m\n$\n$$$$\n";
    let data = " 0.0000000 1.0000000 2.0000000 3.0000000\n 0.1000000 4.0000000 5.0000000 6.0000000\n";
    let text = format!("{header}{data}");
    let file = text.as_bytes();
    let p = parse_standalone(file).unwrap();
    assert_eq!(p.def.long_sections.len(), 3);
    let records = decode_records(&p.data, p.format, p.def.columns.len(), 0).unwrap();
    assert_eq!(records.len(), 2);
    let c = route(&records, &p.def.columns, &vec![1, 2, 3], Value::Zero).unwrap();
    assert_eq!(c.z.len(), 2 * 3);
    assert_eq!(c.phi.unwrap().len(), 2);
    assert!(c.bank.is_none());
}
