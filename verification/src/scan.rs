//! Reads the header of one `.crg` file, line by line, following `crgLoader.c` of the ASAM
//! OpenCRG C-API: the `$ROAD_CRG`, `$ROAD_CRG_OPTS`, `$ROAD_CRG_MODS`, `$KD_Definition`, and
//! `$ROAD_CRG_FILE` blocks, up to the `$$$$` line that starts the data.

use vstd::prelude::*;
use vstd::string::StringSliceAdditionalSpecFns;
use crate::definition::{DataDef, DataDefModel, DefError};
use crate::error::Error;
use crate::header::{
    mods_line, options_line, road_line, Mods, ModsModel, Options, OptionsModel, Road,
};
use crate::keys::{MOD_KEYS, OPTION_KEYS, ROAD_KEYS};
use crate::text::{
    bytes_at, copy_range, find_byte, first_byte, line_end, next_line, occurs_at, skip_space,
    skip_spaces, split_line, trim_back, trim_end, upper, uppercase,
};

verus! {

/// The block a line belongs to.
#[derive(Clone, Copy, Debug, PartialEq, Eq, Structural)]
pub enum Section {
    /// Between blocks.
    Outside,
    /// `$CT`: everything up to the next line that starts with `$` is comment.
    Comment,
    /// `$ROAD_CRG`.
    Road,
    /// `$ROAD_CRG_OPTS`.
    Options,
    /// `$ROAD_CRG_MODS`.
    Mods,
    /// `$ROAD_CRG_MPRO`, which is read past.
    Mpro,
    /// `$KD_Definition`.
    DataDef,
    /// `$ROAD_CRG_FILE`: the name of an included file, possibly over several lines.
    File,
}

/// First position at or after `i` that is not a space (U+0020).
pub open spec fn skip_blanks(s: Seq<u8>, i: int) -> int
    decreases s.len() - i,
{
    if 0 <= i < s.len() && s[i] == 0x20 {
        skip_blanks(s, i + 1)
    } else {
        i
    }
}

proof fn lemma_skip_blanks(s: Seq<u8>, i: int)
    requires
        0 <= i <= s.len(),
    ensures
        i <= skip_blanks(s, i) <= s.len(),
    decreases s.len() - i,
{
    if i < s.len() && s[i] == 0x20 {
        lemma_skip_blanks(s, i + 1);
    }
}

/// Moves past spaces, as `str::trim_start_matches(' ')` does.
pub fn skip_blanks_exec(s: &[u8], i: usize) -> (j: usize)
    requires
        i <= s@.len(),
    ensures
        j == skip_blanks(s@, i as int),
        i <= j <= s@.len(),
{
    proof {
        lemma_skip_blanks(s@, i as int);
    }
    let mut j = i;
    while j < s.len() && s[j] == 0x20
        invariant
            i <= j <= s@.len(),
            skip_blanks(s@, i as int) == skip_blanks(s@, j as int),
        decreases s@.len() - j,
    {
        j += 1;
    }
    j
}

/// Empty lines and lines whose first non-space character is `*`.
pub open spec fn comment_line(line: Seq<u8>) -> bool {
    line.len() == 0 || (skip_blanks(line, 0) < line.len() && line[skip_blanks(line, 0)] == 0x2a)
}

/// Whether `line` is a comment line.
pub fn is_comment(line: &[u8]) -> (r: bool)
    ensures
        r == comment_line(line@),
{
    let t = skip_blanks_exec(line, 0);
    line.len() == 0 || (t < line.len() && line[t] == 0x2a)
}

/// The part of an include name that a `$ROAD_CRG_FILE` line holds: the text before any
/// `!` comment, without surrounding whitespace.
pub open spec fn name_part(line: Seq<u8>) -> Seq<u8> {
    let end = match first_byte(line, 0, line.len() as int, 0x21) {
        Some(e) => e,
        None => line.len() as int,
    };
    let a = skip_spaces(line.subrange(0, end), 0);
    line.subrange(a, trim_back(line.subrange(0, end), a, end))
}

/// The header of one file as read so far.
pub struct ScanModel {
    pub section: Section,
    /// Road values read before the first include, between includes, and after the last.
    pub segments: Seq<Seq<Option<Seq<u8>>>>,
    /// Include names, in file order.
    pub includes: Seq<Seq<u8>>,
    /// The include name of the open `$ROAD_CRG_FILE` block.
    pub name: Seq<u8>,
    pub options: Option<OptionsModel>,
    pub mods: Option<ModsModel>,
    pub def: DataDefModel,
}

pub open spec fn empty_road() -> Seq<Option<Seq<u8>>> {
    Seq::new(ROAD_KEYS as nat, |i: int| None::<Seq<u8>>)
}

/// Whether every block in `m` has its full set of key slots.
pub open spec fn shaped(m: ScanModel) -> bool {
    &&& m.segments.len() == m.includes.len() + 1
    &&& forall|i: int| 0 <= i < m.segments.len() ==> (#[trigger] m.segments[i]).len() == ROAD_KEYS
    &&& m.options matches Some(o) ==> o.values.len() == OPTION_KEYS
    &&& m.mods matches Some(o) ==> o.values.len() == MOD_KEYS
    &&& m.section == Section::Options ==> m.options is Some
    &&& m.section == Section::Mods ==> m.mods is Some
}

impl ScanModel {
    pub open spec fn start() -> ScanModel {
        ScanModel {
            section: Section::Outside,
            segments: seq![empty_road()],
            includes: Seq::empty(),
            name: Seq::empty(),
            options: None,
            mods: None,
            def: DataDefModel::empty(),
        }
    }
}

/// Ends the open block. A `$ROAD_CRG_FILE` block adds its include, which needs a name.
pub open spec fn close_section(m: ScanModel) -> Result<ScanModel, Error> {
    if m.section == Section::File {
        if m.name.len() == 0 {
            Err(Error::Missing("$ROAD_CRG_FILE file name"))
        } else {
            Ok(
                ScanModel {
                    section: Section::Outside,
                    segments: m.segments.push(empty_road()),
                    includes: m.includes.push(m.name),
                    name: Seq::empty(),
                    ..m
                },
            )
        }
    } else {
        Ok(ScanModel { section: Section::Outside, ..m })
    }
}

/// Whether `s` starts with `pat`.
pub open spec fn starts_with(s: Seq<u8>, pat: Seq<u8>) -> bool {
    occurs_at(s, 0, pat)
}

/// The block a `$` line opens, from its upper-case text.
pub open spec fn opened(tag: Seq<u8>) -> Option<Section> {
    if starts_with(tag, "$ROAD_CRG_MODS".spec_bytes()) {
        Some(Section::Mods)
    } else if starts_with(tag, "$ROAD_CRG_OPTS".spec_bytes()) {
        Some(Section::Options)
    } else if starts_with(tag, "$ROAD_CRG_FILE".spec_bytes()) {
        Some(Section::File)
    } else if starts_with(tag, "$ROAD_CRG_MPRO".spec_bytes()) {
        Some(Section::Mpro)
    } else if starts_with(tag, "$ROAD_CRG".spec_bytes()) {
        Some(Section::Road)
    } else if starts_with(tag, "$CT".spec_bytes()) {
        Some(Section::Comment)
    } else if starts_with(tag, "$KD_DEFINITION".spec_bytes()) {
        Some(Section::DataDef)
    } else if starts_with(tag, "$$$$".spec_bytes()) {
        None
    } else {
        Some(Section::Outside)
    }
}

/// After one line: go on with the next line, or the data starts after this one.
pub enum Step {
    Next(ScanModel),
    Data(ScanModel),
}

/// After a `$` line, with upper-case text `up`, that opens a block or starts the data.
pub open spec fn open_step(m: ScanModel, up: Seq<u8>, nested: bool) -> Step {
    match opened(up) {
        None => Step::Data(m),
        Some(Section::Mods) => Step::Next(
            ScanModel {
                section: Section::Mods,
                mods: if nested && m.mods is Some {
                    m.mods
                } else {
                    Some(ModsModel::empty())
                },
                ..m
            },
        ),
        Some(Section::Options) => Step::Next(
            ScanModel {
                section: Section::Options,
                options: if nested && m.options is Some {
                    m.options
                } else {
                    Some(OptionsModel::empty())
                },
                ..m
            },
        ),
        Some(Section::File) => Step::Next(
            ScanModel { section: Section::File, name: Seq::empty(), ..m },
        ),
        Some(s) => Step::Next(ScanModel { section: s, ..m }),
    }
}

/// After a line inside a block; `tag` is the line without leading spaces.
pub open spec fn body_step(m: ScanModel, line: Seq<u8>, tag: Seq<u8>, line_no: int) -> Result<
    ScanModel,
    Error,
> {
    match m.section {
        Section::Road => match road_line(line) {
            Err(reason) => Err(Error::Syntax { line: line_no as usize, reason }),
            Ok(None) => Ok(m),
            Ok(Some((k, text))) => {
                let last = m.segments.len() - 1;
                Ok(
                    ScanModel {
                        segments: m.segments.update(
                            last,
                            m.segments[last].update(k.index(), Some(text)),
                        ),
                        ..m
                    },
                )
            },
        },
        Section::Options => match options_line(line) {
            Err(reason) => Err(Error::Syntax { line: line_no as usize, reason }),
            Ok(l) => Ok(ScanModel { options: Some(m.options->0.with(l)), ..m }),
        },
        Section::Mods => match mods_line(line) {
            Err(reason) => Err(Error::Syntax { line: line_no as usize, reason }),
            Ok(l) => Ok(ScanModel { mods: Some(m.mods->0.with(l)), ..m }),
        },
        Section::DataDef => match m.def.with(tag) {
            Err(DefError::Syntax(reason)) => Err(Error::Syntax { line: line_no as usize, reason }),
            Err(DefError::Unsupported(feature)) => Err(Error::Unsupported(feature)),
            Ok(d) => Ok(ScanModel { def: d, ..m }),
        },
        Section::File => Ok(ScanModel { name: m.name + name_part(line), ..m }),
        _ => Ok(m),
    }
}

/// Reads one header line, numbered `line_no`. In an included file (`nested`) a repeated
/// `$ROAD_CRG_OPTS` or `$ROAD_CRG_MODS` block adds to the earlier one; in the top file it
/// replaces it, as in the C-API. A file read `alone`, without a way to read the files it
/// includes, fails at its first `$ROAD_CRG_FILE` block.
pub open spec fn scan_step(m: ScanModel, line: Seq<u8>, line_no: int, nested: bool, alone: bool) -> Result<
    Step,
    Error,
> {
    let t = skip_blanks(line, 0);
    let tag = line.subrange(t, line.len() as int);
    if m.section == Section::Comment {
        if line.len() > 0 && line[0] == 0x24 {
            Ok(Step::Next(ScanModel { section: Section::Outside, ..m }))
        } else {
            Ok(Step::Next(m))
        }
    } else if comment_line(line) {
        Ok(Step::Next(m))
    } else if tag.len() > 0 && tag[0] == 0x24 {
        if m.section != Section::Outside {
            match close_section(m) {
                Err(e) => Err(e),
                Ok(m2) => Ok(Step::Next(m2)),
            }
        } else if alone && opened(upper(tag)) == Some(Section::File) {
            Err(Error::IncludeUnsupported)
        } else {
            Ok(open_step(m, upper(tag), nested))
        }
    } else {
        match body_step(m, line, tag, line_no) {
            Err(e) => Err(e),
            Ok(m2) => Ok(Step::Next(m2)),
        }
    }
}

/// Reads the lines of `d` from `pos`, the first one numbered `line_no + 1`. Returns the
/// header and where the data starts, if a `$$$$` line comes; a `$ROAD_CRG_FILE` block still
/// open at the end is closed.
pub open spec fn scan_from(
    d: Seq<u8>,
    pos: int,
    line_no: int,
    m: ScanModel,
    nested: bool,
    alone: bool,
) -> Result<
    (ScanModel, Option<int>),
    Error,
>
    decreases d.len() - pos,
{
    if pos < 0 || pos >= d.len() || next_line(d, pos) <= pos {
        if m.section == Section::File {
            match close_section(m) {
                Err(e) => Err(e),
                Ok(m2) => Ok((m2, None)),
            }
        } else {
            Ok((m, None))
        }
    } else {
        match scan_step(m, d.subrange(pos, line_end(d, pos)), line_no + 1, nested, alone) {
            Err(e) => Err(e),
            Ok(Step::Data(m2)) => Ok((m2, Some(next_line(d, pos)))),
            Ok(Step::Next(m2)) => scan_from(d, next_line(d, pos), line_no + 1, m2, nested, alone),
        }
    }
}

/// The header of one file as it is being read.
pub struct Scan {
    pub section: Section,
    pub segments: Vec<Road>,
    pub includes: Vec<Vec<u8>>,
    pub name: Vec<u8>,
    pub options: Option<Options>,
    pub mods: Option<Mods>,
    pub def: DataDef,
}

pub open spec fn options_view(o: Option<Options>) -> Option<OptionsModel> {
    match o {
        Some(o) => Some(o@),
        None => None,
    }
}

pub open spec fn mods_view(o: Option<Mods>) -> Option<ModsModel> {
    match o {
        Some(o) => Some(o@),
        None => None,
    }
}

pub open spec fn segments_view(s: Seq<Road>) -> Seq<Seq<Option<Seq<u8>>>> {
    Seq::new(s.len(), |i: int| s[i].values@)
}

pub open spec fn names_view(s: Seq<Vec<u8>>) -> Seq<Seq<u8>> {
    Seq::new(s.len(), |i: int| s[i]@)
}

impl View for Scan {
    type V = ScanModel;

    open spec fn view(&self) -> ScanModel {
        ScanModel {
            section: self.section,
            segments: segments_view(self.segments@),
            includes: names_view(self.includes@),
            name: self.name@,
            options: options_view(self.options),
            mods: mods_view(self.mods),
            def: self.def@,
        }
    }
}

impl Scan {
    pub fn new() -> (s: Scan)
        ensures
            s@ == ScanModel::start(),
            shaped(s@),
    {
        let mut segments: Vec<Road> = Vec::new();
        segments.push(Road::new());
        let s = Scan {
            section: Section::Outside,
            segments,
            includes: Vec::new(),
            name: Vec::new(),
            options: None,
            mods: None,
            def: DataDef::new(),
        };
        assert(s@.segments =~= seq![empty_road()]);
        assert(s@.includes =~= Seq::<Seq<u8>>::empty());
        s
    }

    /// Ends the open block, as [`close_section`].
    pub fn close(&mut self) -> (r: Result<(), Error>)
        requires
            shaped(old(self)@),
        ensures
            match close_section(old(self)@) {
                Err(e) => r matches Err(e2) && e2 == e,
                Ok(m) => r is Ok && final(self)@ == m && shaped(m),
            },
    {
        if self.section == Section::File {
            if self.name.len() == 0 {
                return Err(Error::Missing("$ROAD_CRG_FILE file name"));
            }
            let ghost old_segments = self.segments@;
            let ghost old_includes = self.includes@;
            let mut name: Vec<u8> = Vec::new();
            std::mem::swap(&mut name, &mut self.name);
            self.includes.push(name);
            self.segments.push(Road::new());
            proof {
                assert(self@.segments =~= segments_view(old_segments).push(empty_road()));
                assert(self@.includes =~= names_view(old_includes).push(name@));
            }
        }
        self.section = Section::Outside;
        Ok(())
    }

    /// Handles a `$` line with upper-case text `up` outside any block, as [`open_step`].
    /// Returns `true` when the data starts after it.
    fn open(&mut self, up: &[u8], nested: bool) -> (r: bool)
        requires
            shaped(old(self)@),
        ensures
            match open_step(old(self)@, up@, nested) {
                Step::Next(m) => !r && final(self)@ == m && shaped(m),
                Step::Data(m) => r && final(self)@ == m && shaped(m),
            },
    {
        if bytes_at(up, 0, "$ROAD_CRG_MODS".as_bytes()) {
            if !(nested && self.mods.is_some()) {
                self.mods = Some(Mods::new());
            }
            self.section = Section::Mods;
        } else if bytes_at(up, 0, "$ROAD_CRG_OPTS".as_bytes()) {
            if !(nested && self.options.is_some()) {
                self.options = Some(Options::new());
            }
            self.section = Section::Options;
        } else if bytes_at(up, 0, "$ROAD_CRG_FILE".as_bytes()) {
            self.section = Section::File;
            self.name = Vec::new();
        } else if bytes_at(up, 0, "$ROAD_CRG_MPRO".as_bytes()) {
            self.section = Section::Mpro;
        } else if bytes_at(up, 0, "$ROAD_CRG".as_bytes()) {
            self.section = Section::Road;
        } else if bytes_at(up, 0, "$CT".as_bytes()) {
            self.section = Section::Comment;
        } else if bytes_at(up, 0, "$KD_DEFINITION".as_bytes()) {
            self.section = Section::DataDef;
        } else if bytes_at(up, 0, "$$$$".as_bytes()) {
            return true;
        } else {
            self.section = Section::Outside;
        }
        false
    }

    /// Applies a `$ROAD_CRG` line to the current segment.
    fn road_line(&mut self, line: &[u8], line_no: usize) -> (r: Result<(), Error>)
        requires
            shaped(old(self)@),
            old(self).section == Section::Road,
        ensures
            match body_step(old(self)@, line@, line@, line_no as int) {
                Err(e) => r matches Err(e2) && e2 == e,
                Ok(m) => r is Ok && final(self)@ == m && shaped(m),
            },
    {
        let ghost old_segments = self.segments@;
        let ghost last = old_segments.len() - 1;
        let mut segment = self.segments.pop().unwrap();
        assert(segment == old_segments[last]);
        match segment.apply(line) {
            Err(reason) => return Err(Error::Syntax { line: line_no, reason }),
            Ok(()) => {},
        }
        self.segments.push(segment);
        proof {
            assert(self@.segments =~= segments_view(old_segments).update(last, segment.values@));
            if road_line(line@) matches Ok(None) {
                assert(self@.segments =~= segments_view(old_segments));
            }
        }
        Ok(())
    }

    /// Adds a `$ROAD_CRG_FILE` line's part of the include name.
    fn name_line(&mut self, line: &[u8])
        ensures
            final(self)@ == (ScanModel { name: old(self)@.name + name_part(line@), ..old(self)@ }),
    {
        let end = match find_byte(line, 0, line.len(), 0x21) {
            Some(e) => e,
            None => line.len(),
        };
        let head = copy_range(line, 0, end);
        let a = skip_space(head.as_slice(), 0);
        let b = trim_end(head.as_slice(), a, end);
        let mut part = copy_range(line, a, b);
        assert(line@.subrange(a as int, b as int) =~= name_part(line@));
        self.name.append(&mut part);
    }

    /// Applies a line inside the open block, as [`body_step`].
    fn body(&mut self, line: &[u8], tag: &[u8], line_no: usize) -> (r: Result<(), Error>)
        requires
            shaped(old(self)@),
        ensures
            match body_step(old(self)@, line@, tag@, line_no as int) {
                Err(e) => r matches Err(e2) && e2 == e,
                Ok(m) => r is Ok && final(self)@ == m && shaped(m),
            },
    {
        match self.section {
            Section::Road => {
                return self.road_line(line, line_no);
            },
            Section::Options => {
                let mut options = self.options.take().unwrap();
                match options.apply(line) {
                    Err(reason) => return Err(Error::Syntax { line: line_no, reason }),
                    Ok(()) => {},
                }
                self.options = Some(options);
            },
            Section::Mods => {
                let mut mods = self.mods.take().unwrap();
                match mods.apply(line) {
                    Err(reason) => return Err(Error::Syntax { line: line_no, reason }),
                    Ok(()) => {},
                }
                self.mods = Some(mods);
            },
            Section::DataDef => {
                match self.def.apply(tag) {
                    Err(DefError::Syntax(reason)) => return Err(
                        Error::Syntax { line: line_no, reason },
                    ),
                    Err(DefError::Unsupported(feature)) => return Err(
                        Error::Unsupported(feature),
                    ),
                    Ok(()) => {},
                }
            },
            Section::File => {
                self.name_line(line);
            },
            _ => {},
        }
        Ok(())
    }

    /// Reads one header line, numbered `line_no`, as [`scan_step`]. Returns `true` when the
    /// data starts after it.
    pub fn step(&mut self, line: &[u8], line_no: usize, nested: bool, alone: bool) -> (r: Result<
        bool,
        Error,
    >)
        requires
            shaped(old(self)@),
        ensures
            match scan_step(old(self)@, line@, line_no as int, nested, alone) {
                Err(e) => r matches Err(e2) && e2 == e,
                Ok(Step::Next(m)) => r == Ok::<bool, Error>(false) && final(self)@ == m && shaped(
                    m,
                ),
                Ok(Step::Data(m)) => r == Ok::<bool, Error>(true) && final(self)@ == m && shaped(
                    m,
                ),
            },
    {
        let t = skip_blanks_exec(line, 0);
        if self.section == Section::Comment {
            if line.len() > 0 && line[0] == 0x24 {
                self.section = Section::Outside;
            }
            return Ok(false);
        }
        if is_comment(line) {
            return Ok(false);
        }
        let tag = copy_range(line, t, line.len());
        if tag.len() > 0 && tag[0] == 0x24 {
            if self.section != Section::Outside {
                self.close()?;
                return Ok(false);
            }
            let up = uppercase(tag.as_slice(), 0, tag.len());
            assert(tag@.subrange(0, tag@.len() as int) =~= tag@);
            let u = up.as_slice();
            if alone && !bytes_at(u, 0, "$ROAD_CRG_MODS".as_bytes()) && !bytes_at(
                u,
                0,
                "$ROAD_CRG_OPTS".as_bytes(),
            ) && bytes_at(u, 0, "$ROAD_CRG_FILE".as_bytes()) {
                return Err(Error::IncludeUnsupported);
            }
            return Ok(self.open(u, nested));
        }
        self.body(line, tag.as_slice(), line_no)?;
        Ok(false)
    }
}

/// The header of one file.
pub struct FileHeader {
    /// Road values read before the first include, between includes, and after the last.
    pub segments: Vec<Road>,
    /// Names of included files, as written, in file order.
    pub includes: Vec<Vec<u8>>,
    /// The `$ROAD_CRG_OPTS` block, if any. An empty block is an empty `Options`.
    pub options: Option<Options>,
    /// The `$ROAD_CRG_MODS` block, if any. An empty block is an empty `Mods`.
    pub mods: Option<Mods>,
    pub def: DataDef,
    /// Offset of the data after the `$$$$` line, if there is one.
    pub data_start: Option<usize>,
}

/// The contents of a [`FileHeader`].
pub struct HeaderModel {
    pub segments: Seq<Seq<Option<Seq<u8>>>>,
    pub includes: Seq<Seq<u8>>,
    pub options: Option<OptionsModel>,
    pub mods: Option<ModsModel>,
    pub def: DataDefModel,
    pub data_start: Option<int>,
}

impl View for FileHeader {
    type V = HeaderModel;

    open spec fn view(&self) -> HeaderModel {
        HeaderModel {
            segments: segments_view(self.segments@),
            includes: names_view(self.includes@),
            options: options_view(self.options),
            mods: mods_view(self.mods),
            def: self.def@,
            data_start: match self.data_start {
                Some(p) => Some(p as int),
                None => None,
            },
        }
    }
}

/// The header that reading `d` from its start gives, where the files it includes can be
/// read.
pub open spec fn scanned(d: Seq<u8>, nested: bool) -> Result<HeaderModel, Error> {
    scanned_with(d, nested, false)
}

/// The header that reading `d` from its start gives, `alone` as [`scan_step`] says.
pub open spec fn scanned_with(d: Seq<u8>, nested: bool, alone: bool) -> Result<HeaderModel, Error> {
    match scan_from(d, 0, 0, ScanModel::start(), nested, alone) {
        Err(e) => Err(e),
        Ok((m, start)) => Ok(
            HeaderModel {
                segments: m.segments,
                includes: m.includes,
                options: m.options,
                mods: m.mods,
                def: m.def,
                data_start: start,
            },
        ),
    }
}

impl Scan {
    fn finish(self, data_start: Option<usize>) -> (h: FileHeader)
        ensures
            h@ == (HeaderModel {
                segments: self@.segments,
                includes: self@.includes,
                options: self@.options,
                mods: self@.mods,
                def: self@.def,
                data_start: match data_start {
                    Some(p) => Some(p as int),
                    None => None,
                },
            }),
    {
        FileHeader {
            segments: self.segments,
            includes: self.includes,
            options: self.options,
            mods: self.mods,
            def: self.def,
            data_start,
        }
    }
}

/// Reads the header of one `.crg` file. `nested` is set for an included file, where
/// repeated `$ROAD_CRG_OPTS` and `$ROAD_CRG_MODS` blocks add up.
pub fn scan_header(bytes: &[u8], nested: bool) -> (r: Result<FileHeader, Error>)
    ensures
        match scanned(bytes@, nested) {
            Err(e) => r matches Err(e2) && e2 == e,
            Ok(h) => r matches Ok(h2) && h2@ == h,
        },
        r matches Ok(h) ==> (h.data_start matches Some(p) ==> p <= bytes@.len()),
        r matches Ok(h) ==> h.segments@.len() == h.includes@.len() + 1,
        r matches Ok(h) ==> forall|i: int| 0 <= i < h.segments@.len() ==> (#[trigger] h.segments@[i]).values@.len() == ROAD_KEYS,
        r matches Ok(h) ==> (h.options matches Some(o) ==> o.values@.len() == OPTION_KEYS),
        r matches Ok(h) ==> (h.mods matches Some(o) ==> o.values@.len() == MOD_KEYS),
{
    scan_header_with(bytes, nested, false)
}

/// Reads the header of a top-level file that cannot include others: a `$ROAD_CRG_FILE`
/// block fails with [`Error::IncludeUnsupported`] where it opens.
pub fn scan_header_alone(bytes: &[u8]) -> (r: Result<FileHeader, Error>)
    ensures
        match scanned_with(bytes@, false, true) {
            Err(e) => r matches Err(e2) && e2 == e,
            Ok(h) => r matches Ok(h2) && h2@ == h,
        },
        r matches Ok(h) ==> (h.data_start matches Some(p) ==> p <= bytes@.len()),
        r matches Ok(h) ==> h.segments@.len() == h.includes@.len() + 1,
        r matches Ok(h) ==> forall|i: int| 0 <= i < h.segments@.len() ==> (#[trigger] h.segments@[i]).values@.len() == ROAD_KEYS,
        r matches Ok(h) ==> (h.options matches Some(o) ==> o.values@.len() == OPTION_KEYS),
        r matches Ok(h) ==> (h.mods matches Some(o) ==> o.values@.len() == MOD_KEYS),
{
    scan_header_with(bytes, false, true)
}

fn scan_header_with(bytes: &[u8], nested: bool, alone: bool) -> (r: Result<FileHeader, Error>)
    ensures
        match scanned_with(bytes@, nested, alone) {
            Err(e) => r matches Err(e2) && e2 == e,
            Ok(h) => r matches Ok(h2) && h2@ == h,
        },
        r matches Ok(h) ==> (h.data_start matches Some(p) ==> p <= bytes@.len()),
        r matches Ok(h) ==> h.segments@.len() == h.includes@.len() + 1,
        r matches Ok(h) ==> forall|i: int| 0 <= i < h.segments@.len() ==> (#[trigger] h.segments@[i]).values@.len() == ROAD_KEYS,
        r matches Ok(h) ==> (h.options matches Some(o) ==> o.values@.len() == OPTION_KEYS),
        r matches Ok(h) ==> (h.mods matches Some(o) ==> o.values@.len() == MOD_KEYS),
{
    let mut scan = Scan::new();
    let mut pos: usize = 0;
    let mut line_no: usize = 0;
    loop
        invariant
            pos <= bytes@.len(),
            line_no <= pos,
            shaped(scan@),
            scan_from(bytes@, 0, 0, ScanModel::start(), nested, alone) == scan_from(
                bytes@,
                pos as int,
                line_no as int,
                scan@,
                nested,
                alone,
            ),
        decreases bytes@.len() - pos,
    {
        if pos >= bytes.len() {
            if scan.section == Section::File {
                scan.close()?;
            }
            let h = scan.finish(None);
            proof {
                assert(forall|i: int| 0 <= i < h.segments@.len() ==> (#[trigger] h.segments@[i]).values@ == h@.segments[i]);
            }
            return Ok(h);
        }
        let (end, next) = split_line(bytes, pos);
        let line = copy_range(bytes, pos, end);
        let data = scan.step(line.as_slice(), line_no + 1, nested, alone)?;
        if data {
            let h = scan.finish(Some(next));
            proof {
                assert(forall|i: int| 0 <= i < h.segments@.len() ==> (#[trigger] h.segments@[i]).values@ == h@.segments[i]);
            }
            return Ok(h);
        }
        pos = next;
        line_no += 1;
    }
}

} // verus!
