//! From a combined file to the raw grid: which data format and long sections the grid
//! uses, and which decoded values go to the grid and to the reference-line channels.

use vstd::prelude::*;
use crate::data::{record_view, records_view, Format, Value, ValueModel};
use crate::definition::{Column, DataDef, DataDefModel};
use crate::error::Error;
use crate::header::{Mods, ModsModel, Options, OptionsModel, Road};
use crate::keys::{MOD_KEYS, OPTION_KEYS, ROAD_KEYS};
use crate::nesting::{
    combine, combined, complete, fails_through, load_nested, loaded_view, loads_through, names_of,
    one_answer, Body, Loaded, LoadedModel,
};
use crate::scan::{mods_view, options_view, scan_header_alone, scanned, scanned_with};

verus! {

/// What the data definition gives before any number is read: the format, and whether the
/// long sections are given by position. Needs a `#:` line and at least two long sections,
/// all given the same way.
pub open spec fn layout_of(def: DataDefModel) -> Result<(Format, bool), Error> {
    match def.format {
        None => Err(Error::Missing("#: data format")),
        Some(f) => if def.long_sections.len() < 2 {
            Err(Error::Invalid("fewer than two long sections"))
        } else if exists|i: int|
            0 <= i < def.long_sections.len() && (#[trigger] def.long_sections[i]).by_position
                != def.long_sections[0].by_position {
            Err(Error::Invalid("long sections mix `at v =` positions and numbers"))
        } else {
            Ok((f, def.long_sections[0].by_position))
        },
    }
}

/// The format and whether long sections are given by position, as [`layout_of`].
pub fn check_layout(def: &DataDef) -> (r: Result<(Format, bool), Error>)
    ensures
        match layout_of(def@) {
            Err(e) => r matches Err(e2) && e2 == e,
            Ok(l) => r matches Ok(l2) && l2 == l,
        },
{
    let format = match def.format {
        None => return Err(Error::Missing("#: data format")),
        Some(f) => f,
    };
    let n = def.long_sections.len();
    if n < 2 {
        return Err(Error::Invalid("fewer than two long sections"));
    }
    let by_position = def.long_sections[0].by_position;
    let mut i: usize = 0;
    while i < n
        invariant
            n == def.long_sections@.len(),
            n >= 2,
            def.format == Some(format),
            i <= n,
            by_position == def@.long_sections[0].by_position,
            forall|k: int| 0 <= k < i ==> (#[trigger] def@.long_sections[k]).by_position == by_position,
        decreases n - i,
    {
        if def.long_sections[i].by_position != by_position {
            assert(def@.long_sections[i as int] == def.long_sections@[i as int]@);
            assert(def@.long_sections[i as int].by_position != def@.long_sections[0].by_position);
            return Err(Error::Invalid("long sections mix `at v =` positions and numbers"));
        }
        i += 1;
    }
    Ok((format, by_position))
}

impl Clone for Value {
    fn clone(&self) -> (r: Self)
        ensures
            r@ == self@,
    {
        match self {
            Value::Single(b) => Value::Single(*b),
            Value::Double(b) => Value::Double(*b),
            Value::Decimal(t) => {
                let mut c: Vec<u8> = Vec::new();
                let mut i: usize = 0;
                while i < t.len()
                    invariant
                        i <= t@.len(),
                        c@ == t@.subrange(0, i as int),
                    decreases t@.len() - i,
                {
                    c.push(t[i]);
                    i += 1;
                    assert(c@ =~= t@.subrange(0, i as int));
                }
                assert(t@.subrange(0, t@.len() as int) =~= t@);
                Value::Decimal(c)
            },
            Value::Zero => Value::Zero,
            Value::NotANumber => Value::NotANumber,
        }
    }
}

/// Grid values of one record: the values of the long-section columns `z_columns`, in that
/// order.
pub open spec fn grid_row(record: Seq<ValueModel>, z_columns: Seq<usize>) -> Seq<ValueModel> {
    Seq::new(z_columns.len(), |k: int| record[z_columns[k] as int])
}

/// Grid values, cross-section major: the grid rows of the records, one after another.
pub open spec fn grid_values(records: Seq<Seq<ValueModel>>, z_columns: Seq<usize>) -> Seq<
    ValueModel,
>
    decreases records.len(),
{
    if records.len() == 0 {
        Seq::empty()
    } else {
        grid_values(records.drop_last(), z_columns) + grid_row(records.last(), z_columns)
    }
}

/// The values of the columns of kind `kind` in one record, in column order.
pub open spec fn channel_row(record: Seq<ValueModel>, columns: Seq<Column>, kind: Column) -> Seq<
    ValueModel,
>
    decreases columns.len(),
{
    if columns.len() == 0 || record.len() < columns.len() {
        Seq::empty()
    } else {
        let rest = channel_row(
            record.subrange(0, columns.len() - 1),
            columns.drop_last(),
            kind,
        );
        if columns.last() == kind {
            rest.push(record[columns.len() - 1])
        } else {
            rest
        }
    }
}

/// The values of the columns of kind `kind`, record after record.
pub open spec fn channel_values(
    records: Seq<Seq<ValueModel>>,
    columns: Seq<Column>,
    kind: Column,
) -> Seq<ValueModel>
    decreases records.len(),
{
    if records.len() == 0 {
        Seq::empty()
    } else {
        channel_values(records.drop_last(), columns, kind) + channel_row(
            records.last(),
            columns,
            kind,
        )
    }
}

/// `s` with its first value replaced by `v`, if it has one.
pub open spec fn with_first(s: Seq<ValueModel>, v: ValueModel) -> Seq<ValueModel> {
    if s.len() == 0 {
        s
    } else {
        s.update(0, v)
    }
}

/// Whether any column has kind `kind`.
pub open spec fn has_column(columns: Seq<Column>, kind: Column) -> bool {
    exists|i: int| 0 <= i < columns.len() && columns[i] == kind
}

/// Decoded values sorted into the grid and the reference-line channels.
pub struct Channels {
    /// Grid values, cross-section major.
    pub z: Vec<Value>,
    /// Heading per cross section, the first being the start heading. `None` without a
    /// heading column.
    pub phi: Option<Vec<Value>>,
    /// Banking per cross section. `None` without a banking column.
    pub bank: Option<Vec<Value>>,
    /// Slope per cross section. `None` without a slope column.
    pub slope: Option<Vec<Value>>,
}

pub open spec fn channel_view(c: Option<Vec<Value>>) -> Option<Seq<ValueModel>> {
    match c {
        Some(v) => Some(record_view(v@)),
        None => None,
    }
}

proof fn lemma_channel_row_step(record: Seq<ValueModel>, columns: Seq<Column>, j: int, kind: Column)
    requires
        0 <= j < columns.len(),
        record.len() == columns.len(),
    ensures
        channel_row(record.subrange(0, j + 1), columns.subrange(0, j + 1), kind) == if columns[j]
            == kind {
            channel_row(record.subrange(0, j), columns.subrange(0, j), kind).push(record[j])
        } else {
            channel_row(record.subrange(0, j), columns.subrange(0, j), kind)
        },
{
    assert(columns.subrange(0, j + 1).drop_last() =~= columns.subrange(0, j));
    assert(record.subrange(0, j + 1).subrange(0, j) =~= record.subrange(0, j));
}

fn push_channel_row(out: &mut Vec<Value>, record: &Vec<Value>, columns: &Vec<Column>, kind: Column)
    requires
        record@.len() == columns@.len(),
    ensures
        record_view(final(out)@) == record_view(old(out)@) + channel_row(
            record_view(record@),
            columns@,
            kind,
        ),
{
    let n = columns.len();
    let mut j: usize = 0;
    proof {
        assert(columns@.subrange(0, 0) =~= Seq::<Column>::empty());
    }
    while j < n
        invariant
            n == columns@.len() == record@.len(),
            j <= n,
            record_view(out@) == record_view(old(out)@) + channel_row(
                record_view(record@).subrange(0, j as int),
                columns@.subrange(0, j as int),
                kind,
            ),
        decreases n - j,
    {
        proof {
            lemma_channel_row_step(record_view(record@), columns@, j as int, kind);
        }
        if columns[j] == kind {
            let ghost before = out@;
            out.push(record[j].clone());
            assert(record_view(out@) =~= record_view(before).push(record@[j as int]@));
        }
        j += 1;
        assert(record_view(out@) =~= record_view(old(out)@) + channel_row(
            record_view(record@).subrange(0, j as int),
            columns@.subrange(0, j as int),
            kind,
        ));
    }
    assert(record_view(record@).subrange(0, n as int) =~= record_view(record@));
    assert(columns@.subrange(0, n as int) =~= columns@);
}

fn push_grid_row(out: &mut Vec<Value>, record: &Vec<Value>, z_columns: &Vec<usize>)
    requires
        forall|k: int| 0 <= k < z_columns@.len() ==> #[trigger] z_columns@[k] < record@.len(),
    ensures
        record_view(final(out)@) == record_view(old(out)@) + grid_row(record_view(record@), z_columns@),
{
    let n = z_columns.len();
    let mut k: usize = 0;
    while k < n
        invariant
            n == z_columns@.len(),
            k <= n,
            forall|m: int| 0 <= m < z_columns@.len() ==> #[trigger] z_columns@[m] < record@.len(),
            record_view(out@) == record_view(old(out)@) + grid_row(
                record_view(record@),
                z_columns@,
            ).subrange(0, k as int),
        decreases n - k,
    {
        let c = z_columns[k];
        let ghost before = out@;
        let v = record[c].clone();
        out.push(v);
        proof {
            assert(grid_row(record_view(record@), z_columns@)[k as int] == record@[c as int]@);
            assert(grid_row(record_view(record@), z_columns@).subrange(0, k + 1) =~= grid_row(
                record_view(record@),
                z_columns@,
            ).subrange(0, k as int).push(record@[c as int]@));
            assert(record_view(out@) =~= record_view(before).push(v@));
        }
        k += 1;
        assert(record_view(out@) =~= record_view(old(out)@) + grid_row(
            record_view(record@),
            z_columns@,
        ).subrange(0, k as int));
    }
    assert(grid_row(record_view(record@), z_columns@).subrange(0, n as int) =~= grid_row(
        record_view(record@),
        z_columns@,
    ));
}

fn has_column_exec(columns: &Vec<Column>, kind: Column) -> (r: bool)
    ensures
        r == has_column(columns@, kind),
{
    let mut i: usize = 0;
    while i < columns.len()
        invariant
            i <= columns@.len(),
            forall|k: int| 0 <= k < i ==> columns@[k] != kind,
        decreases columns@.len() - i,
    {
        if columns[i] == kind {
            return true;
        }
        i += 1;
    }
    false
}

/// Whether a grid of `n` cross sections can be built: it needs at least two.
pub fn check_cross_sections(n: usize) -> (r: Result<(), Error>)
    ensures
        r is Ok <==> n >= 2,
        r matches Err(e) ==> e == Error::Invalid("fewer than two cross sections"),
{
    if n < 2 {
        Err(Error::Invalid("fewer than two cross sections"))
    } else {
        Ok(())
    }
}

/// Sorts decoded records into the grid, whose long sections are the columns `z_columns` in
/// order of position, and the reference-line channels. The first heading is `start_phi`,
/// the value of `REFERENCE_LINE_START_PHI`, not the file's. Fails without a complete record.
pub fn route(
    records: &Vec<Vec<Value>>,
    columns: &Vec<Column>,
    z_columns: &Vec<usize>,
    start_phi: Value,
) -> (r: Result<Channels, Error>)
    requires
        forall|i: int| 0 <= i < records@.len() ==> (#[trigger] records@[i])@.len() == columns@.len(),
        forall|k: int| 0 <= k < z_columns@.len() ==> #[trigger] z_columns@[k] < columns@.len(),
    ensures
        records@.len() == 0 ==> (r matches Err(e) && e == Error::Invalid(
            "data section has no complete record",
        )),
        records@.len() > 0 ==> (r matches Ok(c) && record_view(c.z@) == grid_values(
            records_view(records@),
            z_columns@,
        ) && channel_view(c.phi) == (if has_column(columns@, Column::Phi) {
            Some(
                with_first(
                    channel_values(records_view(records@), columns@, Column::Phi),
                    start_phi@,
                ),
            )
        } else {
            None
        }) && channel_view(c.bank) == (if has_column(columns@, Column::Bank) {
            Some(channel_values(records_view(records@), columns@, Column::Bank))
        } else {
            None
        }) && channel_view(c.slope) == (if has_column(columns@, Column::Slope) {
            Some(channel_values(records_view(records@), columns@, Column::Slope))
        } else {
            None
        })),
{
    let n = records.len();
    if n == 0 {
        return Err(Error::Invalid("data section has no complete record"));
    }
    let mut z: Vec<Value> = Vec::new();
    let mut phi: Vec<Value> = Vec::new();
    let mut bank: Vec<Value> = Vec::new();
    let mut slope: Vec<Value> = Vec::new();
    let mut i: usize = 0;
    while i < n
        invariant
            n == records@.len(),
            i <= n,
            forall|m: int| 0 <= m < records@.len() ==> (#[trigger] records@[m])@.len() == columns@.len(),
            forall|k: int| 0 <= k < z_columns@.len() ==> #[trigger] z_columns@[k] < columns@.len(),
            record_view(z@) == grid_values(records_view(records@).subrange(0, i as int), z_columns@),
            record_view(phi@) == channel_values(
                records_view(records@).subrange(0, i as int),
                columns@,
                Column::Phi,
            ),
            record_view(bank@) == channel_values(
                records_view(records@).subrange(0, i as int),
                columns@,
                Column::Bank,
            ),
            record_view(slope@) == channel_values(
                records_view(records@).subrange(0, i as int),
                columns@,
                Column::Slope,
            ),
        decreases n - i,
    {
        let ghost rs = records_view(records@);
        proof {
            assert(rs.subrange(0, i + 1).drop_last() =~= rs.subrange(0, i as int));
            assert(rs.subrange(0, i + 1).last() == record_view(records@[i as int]@));
        }
        push_grid_row(&mut z, &records[i], z_columns);
        push_channel_row(&mut phi, &records[i], columns, Column::Phi);
        push_channel_row(&mut bank, &records[i], columns, Column::Bank);
        push_channel_row(&mut slope, &records[i], columns, Column::Slope);
        i += 1;
    }
    assert(records_view(records@).subrange(0, n as int) =~= records_view(records@));
    let phi = if has_column_exec(columns, Column::Phi) {
        if phi.len() > 0 {
            let ghost before = phi@;
            phi.set(0, start_phi);
            assert(record_view(phi@) =~= with_first(record_view(before), start_phi@));
        }
        Some(phi)
    } else {
        None
    };
    let bank = if has_column_exec(columns, Column::Bank) {
        Some(bank)
    } else {
        None
    };
    let slope = if has_column_exec(columns, Column::Slope) {
        Some(slope)
    } else {
        None
    };
    Ok(Channels { z, phi, bank, slope })
}

/// A file with its includes combined and its data layout checked.
pub struct Parsed {
    pub road: Road,
    /// The combined `$ROAD_CRG_OPTS` values, if any level has the block.
    pub options: Option<Options>,
    /// The combined `$ROAD_CRG_MODS` values, if any level has the block.
    pub mods: Option<Mods>,
    pub def: DataDef,
    pub format: Format,
    /// Whether the long sections are given by position.
    pub by_position: bool,
    /// The bytes after the `$$$$` line.
    pub data: Vec<u8>,
}

/// The contents of a [`Parsed`].
pub struct ParsedModel {
    pub road: Seq<Option<Seq<u8>>>,
    pub options: Option<OptionsModel>,
    pub mods: Option<ModsModel>,
    pub def: DataDefModel,
    pub format: Format,
    pub by_position: bool,
    pub data: Seq<u8>,
}

impl View for Parsed {
    type V = ParsedModel;

    open spec fn view(&self) -> ParsedModel {
        ParsedModel {
            road: self.road.values@,
            options: options_view(self.options),
            mods: mods_view(self.mods),
            def: self.def@,
            format: self.format,
            by_position: self.by_position,
            data: self.data@,
        }
    }
}

/// A combined file with its data layout checked: it needs data, and a layout as
/// [`layout_of`] reads it.
pub open spec fn parsed_of(l: LoadedModel) -> Result<ParsedModel, Error> {
    match l.body {
        None => Err(Error::NoData),
        Some((def, data)) => match layout_of(def) {
            Err(e) => Err(e),
            Ok((format, by_position)) => Ok(
                ParsedModel {
                    road: l.road,
                    options: l.options,
                    mods: l.mods,
                    def,
                    format,
                    by_position,
                    data,
                },
            ),
        },
    }
}

/// What reading `bytes` gives where no file may be included: a `$ROAD_CRG_FILE` block
/// fails with [`Error::IncludeUnsupported`] where it opens.
pub open spec fn standalone(bytes: Seq<u8>) -> Result<ParsedModel, Error> {
    match scanned_with(bytes, false, true) {
        Err(e) => Err(e),
        Ok(h) => if h.includes.len() > 0 {
            Err(Error::IncludeUnsupported)
        } else {
            match combined(bytes, h, Seq::empty()) {
                Err(e) => Err(e),
                Ok(l) => parsed_of(l),
            }
        },
    }
}

/// Whether every slot table in `p` has its full length.
pub open spec fn full(p: ParsedModel) -> bool {
    &&& p.road.len() == ROAD_KEYS
    &&& p.options matches Some(o) ==> o.values.len() == OPTION_KEYS
    &&& p.mods matches Some(m) ==> m.values.len() == MOD_KEYS
}

/// Checks the data layout of a combined file, as [`parsed_of`].
fn finish(loaded: Loaded) -> (r: Result<Parsed, Error>)
    requires
        complete(loaded@),
    ensures
        match parsed_of(loaded@) {
            Err(e) => r matches Err(e2) && e2 == e,
            Ok(m) => r matches Ok(p) && p@ == m && full(m),
        },
{
    let Loaded { road, options, mods, body } = loaded;
    let Body { def, data } = match body {
        None => return Err(Error::NoData),
        Some(b) => b,
    };
    let (format, by_position) = check_layout(&def)?;
    Ok(Parsed { road, options, mods, def, format, by_position, data })
}

/// Reads a `.crg` file and the files it includes through `loader`, and checks that the
/// data it describes has a format and at least two long sections given the same way.
/// Errors in the file's own header come first; a file without data fails with
/// [`Error::NoData`]. The loader receives, for each include, the chain of names from the
/// top file, each name as written; the bytes it answers are read as that file. A success
/// is [`parsed_of`] such a combination ([`loads_through`]); an error is the layout's error
/// of one, or an error that reading the files really gives ([`fails_through`]). With a
/// loader that gives [`one_answer`] per chain of names, the result is exactly
/// [`parsed_of`] the file's combination where it has one; without includes the result is
/// the file's alone.
pub fn parse<F: Fn(&[String]) -> Result<Vec<u8>, Error>>(bytes: &[u8], loader: &F) -> (r: Result<
    Parsed,
    Error,
>)
    requires
        forall|c: &[String]| #[trigger] loader.requires((c,)),
    ensures
        scanned(bytes@, false) matches Err(e) ==> (r matches Err(e2) && e2 == e),
        r matches Ok(p) ==> full(p@) && exists|l: LoadedModel|
            loads_through(*loader, Seq::<Seq<char>>::empty(), bytes@, l) && #[trigger] parsed_of(l)
                == Ok::<ParsedModel, Error>(p@),
        r matches Err(e) ==> fails_through(*loader, Seq::<Seq<char>>::empty(), bytes@, e)
            || exists|l: LoadedModel|
            loads_through(*loader, Seq::<Seq<char>>::empty(), bytes@, l) && #[trigger] parsed_of(l)
                == Err::<ParsedModel, Error>(e),
        one_answer(*loader) ==> forall|l: LoadedModel|
            #[trigger] loads_through(*loader, Seq::<Seq<char>>::empty(), bytes@, l) ==> match parsed_of(
                l,
            ) {
                Err(e) => r matches Err(e2) && e2 == e,
                Ok(m) => r matches Ok(p) && p@ == m,
            },
        match scanned(bytes@, false) {
            Ok(h) => h.includes.len() == 0 ==> match combined(bytes@, h, Seq::empty()) {
                Err(e) => r matches Err(e2) && e2 == e,
                Ok(l) => match parsed_of(l) {
                    Err(e) => r matches Err(e2) && e2 == e,
                    Ok(m) => r matches Ok(p) && p@ == m,
                },
            },
            Err(_) => true,
        },
{
    let mut chain: Vec<String> = Vec::new();
    assert(names_of(chain@) =~= Seq::<Seq<char>>::empty());
    let loaded = load_nested(bytes, &mut chain, loader)?;
    let ghost lm = loaded@;
    let r = finish(loaded);
    proof {
        assert(parsed_of(lm) matches Ok(m) ==> r matches Ok(p) && p@ == m);
    }
    r
}

/// Reads a `.crg` file held in memory, which may include no other file: the result is
/// [`standalone`]'s.
pub fn parse_standalone(bytes: &[u8]) -> (r: Result<Parsed, Error>)
    ensures
        match standalone(bytes@) {
            Err(e) => r matches Err(e2) && e2 == e,
            Ok(m) => r matches Ok(p) && p@ == m && full(m),
        },
{
    let header = scan_header_alone(bytes)?;
    if header.includes.len() > 0 {
        return Err(Error::IncludeUnsupported);
    }
    let loaded = combine(bytes, header, Vec::new());
    proof {
        assert(loaded_view(Seq::<Loaded>::empty()) =~= Seq::<LoadedModel>::empty());
    }
    let loaded = loaded?;
    finish(loaded)
}

} // verus!
