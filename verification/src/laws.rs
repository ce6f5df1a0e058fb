//! Properties of the reader that hold across its functions.

use vstd::prelude::*;
use crate::data::{decoded, record_size_of, width_of, Format, ValueModel};
use crate::error::Error;
use crate::header::{ModsModel, OptionsModel};
use crate::keys::{MOD_KEYS, OPTION_KEYS, ROAD_KEYS};
use crate::definition::Column;
use crate::layout::{channel_row, channel_values, grid_values, parsed_of, ParsedModel};
use crate::definition::lossy_utf8;
use crate::names::{joined, name_parts_from, piece_text, NamePartModel};
use crate::nans::{
    backward, forward, is_hole, keep_last_fill, lemma_section_fits, nan_fill,
    number_at_or_after, number_at_or_before, section_fill, sections, unchanged, with_offset, Fill,
    NanFlagsModel,
};
use crate::text::{first_byte, lemma_first_byte};
use crate::nesting::{
    answered_all, answers_bytes, combined, combines, complete, kid_bodies, kid_body, kid_mods, kid_options, loads_through,
    lemma_answered_at, options_under, road_through, LoadedModel,
};
use crate::scan::{empty_road, open_step, opened, scanned, HeaderModel, ScanModel, Section, Step};
use crate::types::{border_mode_code, border_mode_from, BorderMode, NanMode};

verus! {

/// Each border mode has its own file number, from 0 to 4, and is read back from it.
pub proof fn border_mode_numbers_round_trip(mode: BorderMode)
    ensures
        0 <= border_mode_code(mode) <= 4,
        border_mode_from(border_mode_code(mode)) == Some(mode),
        forall|m: BorderMode| border_mode_code(m) == border_mode_code(mode) ==> m == mode,
{
}

/// A binary payload decodes into exactly the declared number of records, each with one
/// value per channel.
pub proof fn binary_records_have_declared_shape(
    d: Seq<u8>,
    f: Format,
    channels: int,
    records: int,
)
    requires
        !f.ascii,
        channels >= 0,
        records >= 0,
        decoded(d, f, channels, records) is Ok,
    ensures
        decoded(d, f, channels, records)->Ok_0.len() == records,
        forall|i: int|
            0 <= i < records ==> (#[trigger] decoded(d, f, channels, records)->Ok_0[i]).len()
                == channels,
{
}

/// Long formats pad each record to whole 80-byte lines; packed formats do not pad.
pub proof fn record_size_pads_long_formats(f: Format, channels: int)
    requires
        channels >= 0,
        record_size_of(f, channels) is Some,
    ensures
        record_size_of(f, channels)->0 >= width_of(f) * channels,
        record_size_of(f, channels)->0 < width_of(f) * channels + 80,
        f.long ==> record_size_of(f, channels)->0 % 80 == 0,
        !f.long ==> record_size_of(f, channels)->0 == width_of(f) * channels,
{
    let packed = width_of(f) * channels;
    assert(((packed + 79) / 80) * 80 >= packed && ((packed + 79) / 80) * 80 < packed + 80
        && (((packed + 79) / 80) * 80) % 80 == 0) by (nonlinear_arith)
        requires
            packed >= 0,
    ;
}

proof fn lemma_kid_options_len(kids: Seq<LoadedModel>, n: nat)
    requires
        n <= kids.len(),
        forall|k: int| 0 <= k < kids.len() ==> complete(#[trigger] kids[k]),
    ensures
        kid_options(kids, n) matches Some(o) ==> o.values.len() == OPTION_KEYS,
    decreases n,
{
    if n > 0 {
        lemma_kid_options_len(kids, (n - 1) as nat);
        assert(complete(kids[n - 1]));
    }
}

proof fn lemma_kid_mods_len(kids: Seq<LoadedModel>, n: nat)
    requires
        n <= kids.len(),
        forall|k: int| 0 <= k < kids.len() ==> complete(#[trigger] kids[k]),
    ensures
        kid_mods(kids, n) matches Some(o) ==> o.values.len() == MOD_KEYS,
    decreases n,
{
    if n > 0 {
        lemma_kid_mods_len(kids, (n - 1) as nat);
        assert(complete(kids[n - 1]));
    }
}

proof fn lemma_road_through_len(segments: Seq<Seq<Option<Seq<u8>>>>, kids: Seq<LoadedModel>, n: nat)
    requires
        n <= kids.len(),
        segments.len() > 0,
    ensures
        road_through(segments, kids, n).len() == segments[0].len(),
    decreases n,
{
    if n > 0 {
        lemma_road_through_len(segments, kids, (n - 1) as nat);
    }
}

proof fn lemma_kid_bodies(kids: Seq<LoadedModel>, n: nat)
    requires
        n <= kids.len(),
    ensures
        kid_bodies(kids, n) > 0 <==> exists|k: int| 0 <= k < n && (#[trigger] kids[k]).body is Some,
        kid_body(kids, n) is Some <==> kid_bodies(kids, n) > 0,
        (exists|a: int, b: int|
            0 <= a < b < n && (#[trigger] kids[a]).body is Some && (#[trigger] kids[b]).body is Some)
            ==> kid_bodies(kids, n) > 1,
    decreases n,
{
    if n > 0 {
        let m = (n - 1) as nat;
        lemma_kid_bodies(kids, m);
        if exists|a: int, b: int|
            0 <= a < b < n && (#[trigger] kids[a]).body is Some && (#[trigger] kids[b]).body is Some {
            let (a, b) = choose|a: int, b: int|
                0 <= a < b < n && (#[trigger] kids[a]).body is Some && (#[trigger] kids[b]).body is Some;
            if b < m {
                assert(kid_bodies(kids, m) > 1);
            } else {
                assert(kid_bodies(kids, m) > 0);
            }
        }
        if exists|k: int| 0 <= k < n && (#[trigger] kids[k]).body is Some {
            let k = choose|k: int| 0 <= k < n && (#[trigger] kids[k]).body is Some;
            if k < m {
                assert(kid_bodies(kids, m) > 0);
            }
        }
        if kid_bodies(kids, m) > 0 {
            let k = choose|k: int| 0 <= k < m && (#[trigger] kids[k]).body is Some;
            assert(0 <= k < n && kids[k].body is Some);
        }
        if kids[m as int].body is Some {
            assert(0 <= m < n && kids[m as int].body is Some);
        }
    }
}

/// A file whose only content is one `$ROAD_CRG_FILE` include loads exactly as the file it
/// includes.
pub proof fn included_file_loads_as_if_loaded_directly(
    bytes: Seq<u8>,
    h: HeaderModel,
    kid: LoadedModel,
)
    requires
        h.segments == seq![empty_road(), empty_road()],
        h.includes.len() == 1,
        h.options is None,
        h.mods is None,
        h.data_start is None,
        complete(kid),
    ensures
        combined(bytes, h, seq![kid]) == Ok::<LoadedModel, Error>(kid),
{
    let kids = seq![kid];
    assert(kid_bodies(kids, 0) == 0);
    assert(kid_options(kids, 0) is None);
    assert(kid_mods(kids, 0) is None);
    assert(kid_body(kids, 0) is None);
    assert(kid_options(kids, 1) == kid.options);
    assert(kid_mods(kids, 1) == kid.mods);
    assert(kid_body(kids, 1) == kid.body);
    assert(road_through(h.segments, kids, 0) == empty_road());
    assert(road_through(h.segments, kids, 1) =~= kid.road);
}

/// A top-level file whose only content is one `$ROAD_CRG_FILE` include loads as the
/// included file does when read as an include: as the bytes the loader answers for the
/// include's name, read one level deeper.
pub proof fn wrapper_loads_as_its_included_file<F: Fn(&[String]) -> Result<Vec<u8>, Error>>(
    loader: F,
    bytes: Seq<u8>,
    h: HeaderModel,
    l: LoadedModel,
)
    requires
        scanned(bytes, false) == Ok::<HeaderModel, Error>(h),
        h.segments == seq![empty_road(), empty_road()],
        h.includes.len() == 1,
        h.options is None,
        h.mods is None,
        h.data_start is None,
        loads_through(loader, Seq::<Seq<char>>::empty(), bytes, l),
    ensures
        exists|b: Seq<u8>|
            answers_bytes(loader, Seq::<Seq<char>>::empty(), lossy_utf8(h.includes[0]), b)
                && #[trigger] loads_through(loader, seq![lossy_utf8(h.includes[0])], b, l),
{
    let names = Seq::<Seq<char>>::empty();
    reveal(combines);
    let (kids, sources) = choose|kids: Seq<LoadedModel>, sources: Seq<Seq<u8>>|
        #![trigger combined(bytes, h, kids), sources.len()]
        kids.len() == h.includes.len() && sources.len() == kids.len() && answered_all(
            loader,
            names,
            h.includes,
            sources,
        ) && (forall|i: int|
            #![trigger kids[i]]
            0 <= i < kids.len() ==> combines(
                loader,
                names.push(lossy_utf8(h.includes[i])),
                sources[i],
                Ok::<LoadedModel, Error>(kids[i]),
            ) && complete(kids[i])) && combined(bytes, h, kids) == Ok::<LoadedModel, Error>(l);
    let k = kids[0];
    assert(kids =~= seq![k]);
    assert(names.push(lossy_utf8(h.includes[0])) =~= seq![lossy_utf8(h.includes[0])]);
    assert(combines(loader, seq![lossy_utf8(h.includes[0])], sources[0], Ok::<LoadedModel, Error>(k))
        && complete(k));
    lemma_answered_at(loader, names, h.includes, sources, 0);
    included_file_loads_as_if_loaded_directly(bytes, h, k);
    assert(loads_through(loader, seq![lossy_utf8(h.includes[0])], sources[0], l));
}

/// A file's own `$ROAD_CRG_OPTS` settings beat those of the files it includes, at any depth.
pub proof fn own_options_beat_included_ones(
    bytes: Seq<u8>,
    h: HeaderModel,
    kids: Seq<LoadedModel>,
    l: LoadedModel,
    o: OptionsModel,
)
    requires
        combined(bytes, h, kids) == Ok::<LoadedModel, Error>(l),
        h.options == Some(o),
        o.values.len() == OPTION_KEYS,
        forall|k: int| 0 <= k < kids.len() ==> complete(#[trigger] kids[k]),
    ensures
        l.options is Some,
        o.border_mode_u is Some ==> l.options->0.border_mode_u == o.border_mode_u,
        o.border_mode_v is Some ==> l.options->0.border_mode_v == o.border_mode_v,
        o.refline_close_track is Some ==> l.options->0.refline_close_track
            == o.refline_close_track,
        l.options->0.values.len() == OPTION_KEYS,
        forall|i: int|
            0 <= i < OPTION_KEYS && (#[trigger] o.values[i]) is Some ==> l.options->0.values[i]
                == o.values[i],
{
    lemma_kid_options_len(kids, kids.len());
}

/// A file's own `$ROAD_CRG_MODS` settings beat those of the files it includes, at any depth.
pub proof fn own_mods_beat_included_ones(
    bytes: Seq<u8>,
    h: HeaderModel,
    kids: Seq<LoadedModel>,
    l: LoadedModel,
    m: ModsModel,
)
    requires
        combined(bytes, h, kids) == Ok::<LoadedModel, Error>(l),
        h.mods == Some(m),
        m.values.len() == MOD_KEYS,
        forall|k: int| 0 <= k < kids.len() ==> complete(#[trigger] kids[k]),
    ensures
        l.mods is Some,
        m.grid_nan_mode is Some ==> l.mods->0.grid_nan_mode == m.grid_nan_mode,
        l.mods->0.values.len() == MOD_KEYS,
        forall|i: int|
            0 <= i < MOD_KEYS && (#[trigger] m.values[i]) is Some ==> l.mods->0.values[i]
                == m.values[i],
{
    lemma_kid_mods_len(kids, kids.len());
}

/// Where a file sets no option itself, the last include that sets it wins.
pub proof fn later_included_options_beat_earlier_ones(
    bytes: Seq<u8>,
    h: HeaderModel,
    kids: Seq<LoadedModel>,
    l: LoadedModel,
    o: OptionsModel,
)
    requires
        combined(bytes, h, kids) == Ok::<LoadedModel, Error>(l),
        h.options is None,
        kids.len() > 0,
        kids.last().options == Some(o),
        forall|k: int| 0 <= k < kids.len() ==> complete(#[trigger] kids[k]),
    ensures
        l.options is Some,
        o.border_mode_u is Some ==> l.options->0.border_mode_u == o.border_mode_u,
        o.border_mode_v is Some ==> l.options->0.border_mode_v == o.border_mode_v,
        o.refline_close_track is Some ==> l.options->0.refline_close_track
            == o.refline_close_track,
        forall|i: int|
            0 <= i < OPTION_KEYS && (#[trigger] o.values[i]) is Some ==> l.options->0.values[i]
                == o.values[i],
{
    let n = (kids.len() - 1) as nat;
    lemma_kid_options_len(kids, n);
    assert(complete(kids[n as int]));
    assert(kid_options(kids, kids.len()) == options_under(kid_options(kids, n), Some(o)));
}

/// Road values apply in reading order: a value after the last include beats every value
/// before it, and an include's value beats the values the file sets before that include.
pub proof fn road_values_apply_in_reading_order(
    bytes: Seq<u8>,
    h: HeaderModel,
    kids: Seq<LoadedModel>,
    l: LoadedModel,
    j: int,
)
    requires
        combined(bytes, h, kids) == Ok::<LoadedModel, Error>(l),
        h.segments.len() == kids.len() + 1,
        forall|i: int| 0 <= i < h.segments.len() ==> (#[trigger] h.segments[i]).len() == ROAD_KEYS,
        forall|k: int| 0 <= k < kids.len() ==> complete(#[trigger] kids[k]),
        0 <= j < ROAD_KEYS,
    ensures
        l.road.len() == ROAD_KEYS,
        h.segments.last()[j] is Some ==> l.road[j] == h.segments.last()[j],
        kids.len() > 0 && h.segments.last()[j] is None && kids.last().road[j] is Some ==> l.road[j]
            == kids.last().road[j],
{
    let n = kids.len();
    assert(h.segments[0].len() == ROAD_KEYS);
    lemma_road_through_len(h.segments, kids, n);
    if n > 0 {
        lemma_road_through_len(h.segments, kids, (n - 1) as nat);
        assert(complete(kids[n - 1]));
        assert(h.segments[n as int] == h.segments.last());
    }
}

/// The data comes from exactly one file, the file itself or one include: data in more
/// than one place is an error, and a combination has data exactly when some file had it.
pub proof fn data_comes_from_one_file(bytes: Seq<u8>, h: HeaderModel, kids: Seq<LoadedModel>)
    ensures
        (h.data_start is Some && exists|k: int| 0 <= k < kids.len() && (#[trigger] kids[k]).body is Some)
            ==> combined(bytes, h, kids) == Err::<LoadedModel, Error>(
            Error::Invalid("data given by more than one file"),
        ),
        (exists|a: int, b: int|
            0 <= a < b < kids.len() && (#[trigger] kids[a]).body is Some && (#[trigger] kids[b]).body
                is Some) ==> combined(bytes, h, kids) == Err::<LoadedModel, Error>(
            Error::Invalid("data given by more than one file"),
        ),
        combined(bytes, h, kids) is Ok ==> (combined(bytes, h, kids)->Ok_0.body is Some <==> (
        h.data_start is Some || exists|k: int| 0 <= k < kids.len() && (#[trigger] kids[k]).body is Some)),
{
    lemma_kid_bodies(kids, kids.len());
}

/// The grid holds one value per long section in each record.
pub proof fn grid_has_one_value_per_node(records: Seq<Seq<ValueModel>>, z_columns: Seq<usize>)
    ensures
        grid_values(records, z_columns).len() == records.len() * z_columns.len(),
    decreases records.len(),
{
    if records.len() > 0 {
        grid_has_one_value_per_node(records.drop_last(), z_columns);
        assert((records.len() - 1) * z_columns.len() + z_columns.len() == records.len()
            * z_columns.len()) by (nonlinear_arith);
    }
}

/// How many of `columns` have kind `kind`.
pub open spec fn column_count(columns: Seq<Column>, kind: Column) -> nat
    decreases columns.len(),
{
    if columns.len() == 0 {
        0
    } else {
        column_count(columns.drop_last(), kind) + if columns.last() == kind {
            1nat
        } else {
            0nat
        }
    }
}

proof fn lemma_channel_row_len(record: Seq<ValueModel>, columns: Seq<Column>, kind: Column)
    requires
        record.len() >= columns.len(),
    ensures
        channel_row(record, columns, kind).len() == column_count(columns, kind),
    decreases columns.len(),
{
    if columns.len() > 0 {
        lemma_channel_row_len(record.subrange(0, columns.len() - 1), columns.drop_last(), kind);
    }
}

/// Each reference-line channel holds, for each record, one value per column of its kind.
pub proof fn channels_have_one_value_per_record_and_column(
    records: Seq<Seq<ValueModel>>,
    columns: Seq<Column>,
    kind: Column,
)
    requires
        forall|i: int| 0 <= i < records.len() ==> (#[trigger] records[i]).len() == columns.len(),
    ensures
        channel_values(records, columns, kind).len() == records.len() * column_count(columns, kind),
    decreases records.len(),
{
    if records.len() > 0 {
        let rest = records.drop_last();
        assert forall|i: int| 0 <= i < rest.len() implies (#[trigger] rest[i]).len() == columns.len() by {
            assert(rest[i] == records[i]);
        }
        channels_have_one_value_per_record_and_column(rest, columns, kind);
        assert(records.last() == records[records.len() - 1]);
        lemma_channel_row_len(records.last(), columns, kind);
        let c = column_count(columns, kind);
        assert((records.len() - 1) * c + c == records.len() * c) by (nonlinear_arith);
    }
}

/// A parsed file's grid has at least two long sections and one value per record and long
/// section, and each reference-line channel one value per record and column of its kind.
pub proof fn parsed_grid_has_declared_shape(
    l: LoadedModel,
    m: ParsedModel,
    records: Seq<Seq<ValueModel>>,
    columns: Seq<Column>,
    z_columns: Seq<usize>,
    kind: Column,
)
    requires
        parsed_of(l) == Ok::<ParsedModel, Error>(m),
        z_columns.len() == m.def.long_sections.len(),
        forall|i: int| 0 <= i < records.len() ==> (#[trigger] records[i]).len() == columns.len(),
    ensures
        z_columns.len() >= 2,
        grid_values(records, z_columns).len() == records.len() * z_columns.len(),
        channel_values(records, columns, kind).len() == records.len() * column_count(columns, kind),
{
    grid_has_one_value_per_node(records, z_columns);
    channels_have_one_value_per_record_and_column(records, columns, kind);
}

/// Splitting an include name into text and `$VARIABLE` pieces loses nothing: the pieces,
/// written out again, give the name.
pub proof fn name_parts_rebuild_the_name(s: Seq<u8>, from: int)
    requires
        0 <= from <= s.len(),
    ensures
        joined(name_parts_from(s, from)) == s.subrange(from, s.len() as int),
    decreases s.len() - from,
{
    let len = s.len() as int;
    lemma_first_byte(s, from, len, 0x24);
    match first_byte(s, from, len, 0x24) {
        None => {
            let parts = seq![NamePartModel::Text(s.subrange(from, len))];
            assert(parts.drop_first() =~= Seq::<NamePartModel>::empty());
            assert(joined(Seq::<NamePartModel>::empty()) == Seq::<u8>::empty());
            assert(joined(parts) == s.subrange(from, len) + Seq::<u8>::empty());
            assert(joined(parts) =~= s.subrange(from, len));
        },
        Some(at) => {
            lemma_first_byte(s, at + 1, len, 0x2f);
            let end = match first_byte(s, at + 1, len, 0x2f) {
                Some(e) => e,
                None => len,
            };
            name_parts_rebuild_the_name(s, end);
            let rest = name_parts_from(s, end);
            let t = NamePartModel::Text(s.subrange(from, at));
            let v = NamePartModel::Variable(s.subrange(at + 1, end));
            let parts = seq![t, v] + rest;
            assert(parts.drop_first() =~= seq![v] + rest);
            assert((seq![v] + rest).drop_first() =~= rest);
            assert(joined(seq![v] + rest) == piece_text(v) + joined(rest));
            assert(joined(parts) == piece_text(t) + joined(seq![v] + rest));
            assert(s[at] == 0x24u8);
            assert(joined(parts) =~= s.subrange(from, len));
        },
    }
}

/// A repeated `$ROAD_CRG_OPTS` or `$ROAD_CRG_MODS` block adds to the earlier one in an
/// included file, and starts afresh in the top file.
pub proof fn repeated_blocks_add_up_only_in_included_files(m: ScanModel, up: Seq<u8>)
    requires
        m.options is Some,
        m.mods is Some,
    ensures
        opened(up) == Some(Section::Options) ==> open_step(m, up, true) == Step::Next(
            ScanModel { section: Section::Options, ..m },
        ) && open_step(m, up, false) == Step::Next(
            ScanModel { section: Section::Options, options: Some(OptionsModel::empty()), ..m },
        ),
        opened(up) == Some(Section::Mods) ==> open_step(m, up, true) == Step::Next(
            ScanModel { section: Section::Mods, ..m },
        ) && open_step(m, up, false) == Step::Next(
            ScanModel { section: Section::Mods, mods: Some(ModsModel::empty()), ..m },
        ),
{
}

proof fn lemma_forward_zero(p: Seq<Fill>, a: bool, b: int, nv: int, iv: int, h: NanFlagsModel)
    requires
        1 <= iv,
        0 <= b,
        b + nv <= p.len(),
    ensures
        forward(p, a, b, nv, iv, NanMode::SetZero, h).1 == a,
        forward(p, a, b, nv, iv, NanMode::SetZero, h).0.len() == p.len(),
        forall|j: int|
            0 <= j < p.len() ==> #[trigger] forward(p, a, b, nv, iv, NanMode::SetZero, h).0[j] == if b
                + iv <= j < b + nv && is_hole(p[j], h) {
                Fill::Offset
            } else {
                p[j]
            },
    decreases nv - iv,
{
    if iv < nv {
        let i = b + iv;
        let p2 = if is_hole(p[i], h) {
            p.update(i, Fill::Offset)
        } else {
            p
        };
        lemma_forward_zero(p2, a, b, nv, iv + 1, h);
    }
}

proof fn lemma_backward_zero(p: Seq<Fill>, a: bool, b: int, iv: int, h: NanFlagsModel)
    requires
        0 <= iv,
        0 <= b,
        b + iv < p.len(),
        !h.offset,
        forall|j: int| b + 1 <= j <= b + iv ==> !is_hole(#[trigger] p[j], h),
    ensures
        backward(p, a, b, iv, NanMode::SetZero, h) == (if iv >= 1 && is_hole(p[b], h) {
            p.update(b, Fill::Offset)
        } else {
            p
        }, a),
    decreases iv,
{
    if iv >= 1 {
        let i = b + iv;
        if iv == 1 {
            let p2 = if is_hole(p[b], h) && !is_hole(p[i], h) {
                p.update(b, Fill::Offset)
            } else {
                p
            };
            assert(backward(p2, a, b, 0, NanMode::SetZero, h) == (p2, a));
        } else {
            assert(!is_hole(p[i - 1], h));
            lemma_backward_zero(p, a, b, iv - 1, h);
        }
    }
}

/// The grid with every hole before position `upto` filled with the offset.
spec fn zero_filled(h: NanFlagsModel, upto: int) -> Seq<Fill> {
    Seq::new(
        h.plain.len(),
        |j: int|
            if j < upto && h.plain[j] {
                Fill::Offset
            } else {
                Fill::From { from: j as usize, adds: 0 }
            },
    )
}

proof fn lemma_sections_zero(h: NanFlagsModel, a: bool, k: int, count: int, nv: int)
    requires
        nv >= 2,
        !h.offset,
        h.plain.len() <= usize::MAX,
        0 <= k <= count,
        count == h.plain.len() as int / nv,
    ensures
        sections(zero_filled(h, k * nv), a, k, count, nv, NanMode::SetZero, h) == zero_filled(
            h,
            count * nv,
        ),
    decreases count - k,
{
    let n = h.plain.len() as int;
    if k < count {
        lemma_section_fits(k, nv, n);
        let b = k * nv;
        let p = zero_filled(h, b);
        lemma_forward_zero(p, a, b, nv, 1, h);
        let p1 = forward(p, a, b, nv, 1, NanMode::SetZero, h).0;
        assert forall|j: int| b + 1 <= j <= b + (nv - 1) implies !is_hole(#[trigger] p1[j], h) by {
            assert(p1[j] == (if b + 1 <= j < b + nv && is_hole(p[j], h) {
                Fill::Offset
            } else {
                p[j]
            }));
        }
        lemma_backward_zero(p1, false, b, nv - 1, h);
        let (p2, a2) = section_fill(p, a, b, nv, NanMode::SetZero, h);
        assert((k + 1) * nv == b + nv) by (nonlinear_arith)
            requires
                b == k * nv,
        ;
        assert(p2 =~= zero_filled(h, (k + 1) * nv)) by {
            assert(p1[b] == p[b]);
            assert(p2 == (if is_hole(p1[b], h) {
                p1.update(b, Fill::Offset)
            } else {
                p1
            }));
            assert forall|j: int| 0 <= j < n implies p2[j] == zero_filled(h, (k + 1) * nv)[j] by {
                assert(p1[j] == (if b + 1 <= j < b + nv && is_hole(p[j], h) {
                    Fill::Offset
                } else {
                    p[j]
                }));
                if j != b {
                    assert(p2[j] == p1[j]);
                }
            }
        }
        lemma_sections_zero(h, a2, k + 1, count, nv);
    }
}

/// With `SetZero`, every NaN value of a whole cross section with at least two long
/// sections becomes the offset, where the offset is a number; every other value stays.
pub proof fn set_zero_fills_every_hole_with_the_offset(h: NanFlagsModel, nv: int, i: int)
    requires
        nv >= 2,
        h.plain.len() == h.once.len() == h.twice.len(),
        h.plain.len() <= usize::MAX,
        !h.offset,
        0 <= i < h.plain.len(),
    ensures
        nan_fill(h, nv, NanMode::SetZero)[i] == if i < (h.plain.len() as int / nv) * nv && h.plain[i] {
            Fill::Offset
        } else {
            Fill::From { from: i as usize, adds: 0 }
        },
{
    let count = h.plain.len() as int / nv;
    assert(zero_filled(h, 0) =~= unchanged(h.plain.len()));
    assert(0 * nv == 0);
    lemma_sections_zero(h, false, 0, count, nv);
}

proof fn lemma_before(plain: Seq<bool>, b: int, j: int)
    requires
        0 <= b <= j < plain.len(),
    ensures
        number_at_or_before(plain, b, j) matches Some(l) ==> b <= l <= j && !plain[l],
        number_at_or_before(plain, b, j) is None ==> forall|m: int| b <= m <= j ==> plain[m],
    decreases j - b,
{
    assert(number_at_or_before(plain, b, b - 1) is None);
    if plain[j] && j > b {
        lemma_before(plain, b, j - 1);
    }
}

proof fn lemma_after(plain: Seq<bool>, j: int, e: int)
    requires
        0 <= j <= e <= plain.len(),
    ensures
        number_at_or_after(plain, j, e) matches Some(r) ==> j <= r < e && !plain[r] && forall|
            m: int,
        | j <= m < r ==> plain[m],
        number_at_or_after(plain, j, e) is None ==> forall|m: int| j <= m < e ==> plain[m],
    decreases e - j,
{
    if j < e && plain[j] {
        lemma_after(plain, j + 1, e);
    }
}

/// `number_at_or_after` is the same from any position before the first number.
proof fn lemma_after_from(plain: Seq<bool>, b: int, j: int, e: int)
    requires
        0 <= b <= j <= e <= plain.len(),
        forall|m: int| b <= m < j ==> plain[m],
    ensures
        number_at_or_after(plain, j, e) == number_at_or_after(plain, b, e),
    decreases j - b,
{
    if b < j {
        lemma_after_from(plain, b + 1, j, e);
    }
}

/// The shape the first `KeepLast` sweep leaves from `b` to before `upto`: a number stays,
/// a value takes the nearest number to its left, and a value without one takes the first
/// value; the offset is added at most `bound` times.
spec fn forward_shape(p: Seq<Fill>, plain: Seq<bool>, b: int, upto: int, bound: int) -> bool {
    forall|j: int|
        b <= j < upto ==> (#[trigger] p[j] matches Fill::From { from, adds } && adds <= bound && (
        !plain[j] ==> from == j && adds == 0) && match number_at_or_before(plain, b, j) {
            Some(l) => from == l,
            None => from == b && adds == 0,
        })
}

/// Adding the offset to a number gives a number.
spec fn offset_keeps_numbers(h: NanFlagsModel) -> bool {
    forall|m: int| 0 <= m < h.plain.len() && !h.plain[m] ==> !h.once[m]
}

proof fn lemma_forward_keep(p: Seq<Fill>, a: bool, b: int, nv: int, iv: int, h: NanFlagsModel)
    requires
        1 <= iv <= nv,
        0 <= b,
        b + nv <= p.len(),
        p.len() == h.plain.len() == h.once.len(),
        h.plain.len() <= usize::MAX,
        offset_keeps_numbers(h),
        forward_shape(p, h.plain, b, b + iv, if a { 1 } else { 0 }),
        forall|j: int|
            b + iv <= j < p.len() ==> #[trigger] p[j] == (Fill::From { from: j as usize, adds: 0 }),
    ensures
        forward(p, a, b, nv, iv, NanMode::KeepLast, h).0.len() == p.len(),
        forward_shape(forward(p, a, b, nv, iv, NanMode::KeepLast, h).0, h.plain, b, b + nv, 1),
        forall|j: int|
            0 <= j < p.len() && !(b <= j < b + nv) ==> #[trigger] forward(
                p,
                a,
                b,
                nv,
                iv,
                NanMode::KeepLast,
                h,
            ).0[j] == p[j],
    decreases nv - iv,
{
    if iv < nv {
        let i = b + iv;
        assert(p[i] == Fill::From { from: i as usize, adds: 0 });
        assert(is_hole(p[i], h) == h.plain[i]);
        let (p2, a2) = if !is_hole(p[i], h) {
            (p, a)
        } else if !is_hole(p[i - 1], h) && !a {
            (p.update(i, with_offset(p[i - 1])), true)
        } else {
            (p.update(i, p[i - 1]), a)
        };
        assert(forward(p, a, b, nv, iv, NanMode::KeepLast, h) == forward(
            p2,
            a2,
            b,
            nv,
            iv + 1,
            NanMode::KeepLast,
            h,
        ));
        if h.plain[i] {
            lemma_before(h.plain, b, i - 1);
            assert(number_at_or_before(h.plain, b, i) == number_at_or_before(h.plain, b, i - 1));
            let c = p[i - 1];
            assert(b <= i - 1 < b + iv);
            match number_at_or_before(h.plain, b, i - 1) {
                Some(l) => {
                    assert(!h.plain[l]);
                    assert(!is_hole(c, h));
                },
                None => {
                    assert(h.plain[b]);
                    assert(is_hole(c, h));
                },
            }
        }
        assert(forward_shape(p2, h.plain, b, b + iv + 1, if a2 { 1 } else { 0 })) by {
            assert forall|j: int| b <= j < b + iv + 1 implies (#[trigger] p2[j] matches Fill::From {
                from,
                adds,
            } && adds <= (if a2 { 1int } else { 0int }) && (!h.plain[j] ==> from == j && adds == 0)
                && match number_at_or_before(h.plain, b, j) {
                Some(l) => from == l,
                None => from == b && adds == 0,
            }) by {
                if j < i {
                    assert(p2[j] == p[j]);
                }
            }
        }
        lemma_forward_keep(p2, a2, b, nv, iv + 1, h);
    }
}

proof fn lemma_backward_keep_none(p: Seq<Fill>, a: bool, b: int, iv: int, h: NanFlagsModel)
    requires
        0 <= iv,
        0 <= b,
        b + iv < p.len(),
        forall|j: int| b <= j <= b + iv ==> is_hole(#[trigger] p[j], h),
    ensures
        backward(p, a, b, iv, NanMode::KeepLast, h) == (p, a),
    decreases iv,
{
    if iv >= 1 {
        assert(is_hole(p[b + iv], h));
        lemma_backward_keep_none(p, a, b, iv - 1, h);
    }
}

proof fn lemma_backward_keep(
    p: Seq<Fill>,
    q: Seq<Fill>,
    a: bool,
    b: int,
    e: int,
    iv: int,
    first: int,
    h: NanFlagsModel,
)
    requires
        0 <= b,
        0 <= iv,
        b + iv < e,
        e <= q.len(),
        q.len() == p.len() == h.plain.len() == h.once.len(),
        h.plain.len() <= usize::MAX,
        offset_keeps_numbers(h),
        forward_shape(q, h.plain, b, e, 1),
        number_at_or_after(h.plain, b, e) == Some(first),
        forall|j: int|
            0 <= j < p.len() ==> #[trigger] p[j] == if b + iv <= j < first {
                Fill::From { from: first as usize, adds: 1 }
            } else {
                q[j]
            },
        a == (b + iv < first),
    ensures
        backward(p, a, b, iv, NanMode::KeepLast, h).0.len() == p.len(),
        forall|j: int|
            0 <= j < p.len() ==> #[trigger] backward(p, a, b, iv, NanMode::KeepLast, h).0[j]
                == if b <= j < first {
                Fill::From { from: first as usize, adds: 1 }
            } else {
                q[j]
            },
    decreases iv,
{
    lemma_after(h.plain, b, e);
    if iv >= 1 {
        let i = b + iv;
        let (p2, a2) = if !(is_hole(p[i - 1], h) && !is_hole(p[i], h)) {
            (p, a)
        } else if !a {
            (p.update(i - 1, with_offset(p[i])), true)
        } else {
            (p.update(i - 1, p[i]), a)
        };
        assert(backward(p, a, b, iv, NanMode::KeepLast, h) == backward(
            p2,
            a2,
            b,
            iv - 1,
            NanMode::KeepLast,
            h,
        ));
        if i > first {
            lemma_before(h.plain, b, i - 1);
            assert(number_at_or_before(h.plain, b, i - 1) is Some) by {
                if number_at_or_before(h.plain, b, i - 1) is None {
                    assert(h.plain[first]);
                }
            }
            let l = number_at_or_before(h.plain, b, i - 1)->0;
            assert(!h.plain[l]);
            assert(p[i - 1] == q[i - 1]);
            assert(!is_hole(p[i - 1], h));
        } else if i == first {
            lemma_before(h.plain, b, i - 1);
            assert(h.plain[i - 1]);
            assert(number_at_or_before(h.plain, b, i - 1) is None) by {
                match number_at_or_before(h.plain, b, i - 1) {
                    Some(l) => {
                        assert(!h.plain[l]);
                    },
                    None => {},
                }
            }
            assert(h.plain[b]);
            assert(p[i - 1] == q[i - 1]);
            assert(is_hole(p[i - 1], h));
            assert(p[i] == q[i]);
            assert(q[i] == Fill::From { from: i as usize, adds: 0 });
            assert(!is_hole(p[i], h));
        } else {
            lemma_before(h.plain, b, i - 1);
            assert(number_at_or_before(h.plain, b, i - 1) is None) by {
                match number_at_or_before(h.plain, b, i - 1) {
                    Some(l) => {
                        assert(!h.plain[l]);
                    },
                    None => {},
                }
            }
            assert(h.plain[b]);
            assert(p[i - 1] == q[i - 1]);
            assert(is_hole(p[i - 1], h));
            assert(p[i] == Fill::From { from: first as usize, adds: 1 });
            assert(!is_hole(p[i], h));
        }
        lemma_backward_keep(p2, q, a2, b, e, iv - 1, first, h);
    }
}

/// The whole grid before position `upto` follows `keep_last_fill`, and everything after it
/// is unchanged.
spec fn keep_last_done(p: Seq<Fill>, h: NanFlagsModel, nv: int, upto: int) -> bool {
    &&& p.len() == h.plain.len()
    &&& forall|j: int|
        0 <= j < upto ==> keep_last_fill(h.plain, (j / nv) * nv, (j / nv) * nv + nv, j, #[trigger] p[j])
    &&& forall|j: int| upto <= j < p.len() ==> #[trigger] p[j] == Fill::From { from: j as usize, adds: 0 }
}

proof fn lemma_section_of(j: int, k: int, nv: int)
    requires
        nv > 0,
        k >= 0,
        k * nv <= j < k * nv + nv,
    ensures
        j / nv == k,
{
    assert(j / nv == k) by (nonlinear_arith)
        requires
            nv > 0,
            k >= 0,
            k * nv <= j < k * nv + nv,
    ;
}

proof fn lemma_sections_keep(p: Seq<Fill>, a: bool, k: int, count: int, nv: int, h: NanFlagsModel)
    requires
        nv >= 1,
        0 <= k <= count,
        count == h.plain.len() as int / nv,
        h.plain.len() == h.once.len(),
        h.plain.len() <= usize::MAX,
        offset_keeps_numbers(h),
        keep_last_done(p, h, nv, k * nv),
    ensures
        keep_last_done(sections(p, a, k, count, nv, NanMode::KeepLast, h), h, nv, count * nv),
    decreases count - k,
{
    let n = h.plain.len() as int;
    if k < count {
        lemma_section_fits(k, nv, n);
        let b = k * nv;
        let e = b + nv;
        assert(forward_shape(p, h.plain, b, b + 1, if a { 1 } else { 0 })) by {
            assert(p[b] == Fill::From { from: b as usize, adds: 0 });
            if !h.plain[b] {
                assert(number_at_or_before(h.plain, b, b) == Some(b));
            } else {
                assert(number_at_or_before(h.plain, b, b - 1) is None);
            }
        }
        lemma_forward_keep(p, a, b, nv, 1, h);
        let q = forward(p, a, b, nv, 1, NanMode::KeepLast, h).0;
        let (p2, a2) = section_fill(p, a, b, nv, NanMode::KeepLast, h);
        assert(backward(q, false, b, nv - 1, NanMode::KeepLast, h) == (p2, a2));
        lemma_after(h.plain, b, e);
        assert((k + 1) * nv == e) by (nonlinear_arith)
            requires
                b == k * nv,
                e == b + nv,
        ;
        match number_at_or_after(h.plain, b, e) {
            Some(first) => {
                lemma_backward_keep(q, q, false, b, e, nv - 1, first, h);
            },
            None => {
                assert forall|j: int| b <= j <= b + (nv - 1) implies is_hole(#[trigger] q[j], h) by {
                    lemma_before(h.plain, b, j);
                }
                lemma_backward_keep_none(q, false, b, nv - 1, h);
            },
        }
        assert(keep_last_done(p2, h, nv, (k + 1) * nv)) by {
            assert forall|j: int| 0 <= j < e implies keep_last_fill(
                h.plain,
                (j / nv) * nv,
                (j / nv) * nv + nv,
                j,
                #[trigger] p2[j],
            ) by {
                if j < b {
                    assert(p2[j] == q[j]);
                    assert(q[j] == p[j]);
                } else {
                    lemma_section_of(j, k, nv);
                    lemma_before(h.plain, b, j);
                    assert(b <= j < e);
                    match number_at_or_after(h.plain, b, e) {
                        Some(first) => {
                            if j < first {
                                lemma_after_from(h.plain, b, j, e);
                                assert(number_at_or_before(h.plain, b, j) is None);
                            } else {
                                assert(p2[j] == q[j]);
                                if h.plain[j] {
                                    assert(number_at_or_before(h.plain, b, j) is Some) by {
                                        if number_at_or_before(h.plain, b, j) is None {
                                            assert(h.plain[first]);
                                        }
                                    }
                                }
                            }
                        },
                        None => {
                            assert(p2[j] == q[j]);
                            lemma_after_from(h.plain, b, j, e);
                        },
                    }
                }
            }
            assert forall|j: int| e <= j < p2.len() implies #[trigger] p2[j] == Fill::From {
                from: j as usize,
                adds: 0,
            } by {
                assert(p2[j] == q[j]);
                assert(q[j] == p[j]);
            }
        }
        lemma_sections_keep(p2, a2, k + 1, count, nv, h);
    }
}

/// With `KeepLast`, where adding the offset to a number gives a number, each value of a
/// whole cross section follows [`keep_last_fill`]: a number stays, and a hole takes the
/// nearest number to its left or else the nearest one to its right plus the offset.
/// Values after the last whole cross section stay.
pub proof fn keep_last_fills_holes_from_the_nearest_number(h: NanFlagsModel, nv: int, i: int)
    requires
        nv >= 1,
        h.plain.len() == h.once.len() == h.twice.len(),
        h.plain.len() <= usize::MAX,
        forall|m: int| 0 <= m < h.plain.len() && !h.plain[m] ==> !h.once[m],
        0 <= i < h.plain.len(),
    ensures
        i < (h.plain.len() as int / nv) * nv ==> keep_last_fill(
            h.plain,
            (i / nv) * nv,
            (i / nv) * nv + nv,
            i,
            nan_fill(h, nv, NanMode::KeepLast)[i],
        ),
        i >= (h.plain.len() as int / nv) * nv ==> nan_fill(h, nv, NanMode::KeepLast)[i]
            == (Fill::From { from: i as usize, adds: 0 }),
{
    let count = h.plain.len() as int / nv;
    assert(0 * nv == 0);
    assert(keep_last_done(unchanged(h.plain.len()), h, nv, 0));
    lemma_sections_keep(unchanged(h.plain.len()), false, 0, count, nv, h);
}

} // verus!
