//! The `$KD_Definition` block: the payload format and the meaning of each data column.

use vstd::prelude::*;
use vstd::string::StringSliceAdditionalSpecFns;
use vstd::utf8::{decode_utf8, valid_utf8};
use crate::data::{format_of, Format};
use crate::number::{numeric_prefix, numeric_prefix_exec};
use crate::text::{
    copy_range, find, find_byte, find_from, first_byte, lower, lowercase, occurs_at, upper,
    uppercase, bytes_at, same_bytes,
};

verus! {

/// The text `String::from_utf8_lossy` makes of `bytes`.
pub uninterp spec fn lossy_utf8(bytes: Seq<u8>) -> Seq<char>;

/// `String::from_utf8_lossy`, owned. The text is named by [`lossy_utf8`]; for valid UTF-8
/// it is the decoded characters. What replaces invalid sequences is not stated.
#[verifier::external_body]
pub(crate) fn lossy_text(bytes: &[u8]) -> (s: String)
    ensures
        s@ == lossy_utf8(bytes@),
        valid_utf8(bytes@) ==> s@ == decode_utf8(bytes@),
{
    String::from_utf8_lossy(bytes).into_owned()
}

/// What a data column holds.
#[derive(Clone, Copy, Debug, PartialEq, Eq, Structural)]
pub enum Column {
    /// A long section of grid elevations.
    Z,
    /// Reference-line heading.
    Phi,
    /// Reference-line banking.
    Bank,
    /// Reference-line slope.
    Slope,
    /// Any other channel, which still occupies a column.
    Ignored,
}

/// A `D:long section` definition.
pub struct LongSection {
    /// The number after `long section`, or after `at v =`, as C's `atof` reads it.
    pub position: Vec<u8>,
    /// The data column that holds it.
    pub column: usize,
    /// `true` for `long section at v = ...`, `false` for a numbered long section.
    pub by_position: bool,
}

/// The contents of a [`LongSection`].
pub struct LongSectionModel {
    pub position: Seq<u8>,
    pub column: int,
    pub by_position: bool,
}

impl View for LongSection {
    type V = LongSectionModel;

    open spec fn view(&self) -> LongSectionModel {
        LongSectionModel {
            position: self.position@,
            column: self.column as int,
            by_position: self.by_position,
        }
    }
}

/// Why a `$KD_Definition` line was rejected.
pub enum DefError {
    Syntax(&'static str),
    Unsupported(&'static str),
}

/// What a `D:` line defines: the column kind, and for a long section its number and
/// whether that number is a position.
pub open spec fn definition(body: Seq<u8>) -> Result<(Column, Option<(Seq<u8>, bool)>), DefError> {
    let low = lower(body);
    let ls = "long section".spec_bytes();
    let rl = "reference line".spec_bytes();
    match find_from(low, 0, low.len() as int, ls) {
        Some(i) => {
            let after = i + ls.len();
            let at = find_from(low, after, low.len() as int, "at v ".spec_bytes());
            let eq = match at {
                Some(j) => first_byte(low, j, low.len() as int, 0x3d),
                None => None,
            };
            if at is Some && eq is None {
                Err(DefError::Syntax("long section position needs `=`"))
            } else {
                let start = match eq {
                    Some(e) => e + 1,
                    None => after,
                };
                let number = body.subrange(start, body.len() as int);
                match numeric_prefix(number) {
                    None => Err(DefError::Syntax("long section needs a number")),
                    Some((a, b)) => match first_byte(number, 0, number.len() as int, 0x2c) {
                        None => Err(DefError::Syntax("long section needs a unit")),
                        Some(c) => if c + 1 < number.len() && number[c + 1] == 0x6d {
                            Ok((Column::Z, Some((number.subrange(a, b), at is Some))))
                        } else {
                            Err(DefError::Syntax("long section unit must be m"))
                        },
                    },
                }
            }
        },
        None => match find_from(low, 0, low.len() as int, rl) {
            None => Ok((Column::Ignored, None)),
            Some(i) => {
                let rest = low.subrange(i + rl.len(), low.len() as int);
                if rest.contains(0x78) || rest.contains(0x79) || rest.contains(0x75) {
                    Err(DefError::Unsupported("reference line x, y, or u data channels"))
                } else {
                    let phi = find_from(rest, 0, rest.len() as int, "phi".spec_bytes());
                    let bank = find_from(rest, 0, rest.len() as int, "banking".spec_bytes());
                    let slope = find_from(rest, 0, rest.len() as int, "slope".spec_bytes());
                    let (at, column, unit) = if phi is Some {
                        (phi->0, Column::Phi, "rad".spec_bytes())
                    } else if bank is Some {
                        (bank->0, Column::Bank, "m/m".spec_bytes())
                    } else {
                        (slope->0, Column::Slope, "m/m".spec_bytes())
                    };
                    if phi is None && bank is None && slope is None {
                        Err(DefError::Syntax("unknown reference line channel"))
                    } else {
                        match first_byte(rest, at, rest.len() as int, 0x2c) {
                            None => Err(DefError::Syntax("reference line channel needs a unit")),
                            Some(c) => if find_from(rest, c, rest.len() as int, unit) is Some {
                                Ok((column, None))
                            } else {
                                Err(DefError::Syntax("wrong reference line channel unit"))
                            },
                        }
                    }
                }
            },
        },
    }
}

fn contains_byte(s: &[u8], b: u8) -> (r: bool)
    ensures
        r == s@.contains(b),
{
    let mut i: usize = 0;
    while i < s.len()
        invariant
            i <= s@.len(),
            forall|k: int| 0 <= k < i ==> s@[k] != b,
        decreases s@.len() - i,
    {
        if s[i] == b {
            assert(s@[i as int] == b);
            return true;
        }
        i += 1;
    }
    false
}

/// Reads the `D:` definition `body`, as `decodeDefined` does.
pub fn define(body: &[u8]) -> (r: Result<(Column, Option<(Vec<u8>, bool)>), DefError>)
    ensures
        match definition(body@) {
            Err(DefError::Syntax(m)) => r matches Err(DefError::Syntax(m2)) && m2 == m,
            Err(DefError::Unsupported(m)) => r matches Err(DefError::Unsupported(m2)) && m2 == m,
            Ok((c, None)) => r matches Ok((c2, None)) && c2 == c,
            Ok((c, Some((t, b)))) => r matches Ok((c2, Some((t2, b2)))) && c2 == c && t2@ == t
                && b2 == b,
        },
{
    let low = lowercase(body, 0, body.len());
    assert(body@.subrange(0, body@.len() as int) =~= body@);
    let l = low.as_slice();
    let ls = "long section".as_bytes();
    let rl = "reference line".as_bytes();
    match find(l, 0, l.len(), ls) {
        Some(i) => {
            let after = i + ls.len();
            let at = find(l, after, l.len(), "at v ".as_bytes());
            let eq = match at {
                Some(j) => find_byte(l, j, l.len(), 0x3d),
                None => None,
            };
            if at.is_some() && eq.is_none() {
                return Err(DefError::Syntax("long section position needs `=`"));
            }
            let start = match eq {
                Some(e) => e + 1,
                None => after,
            };
            let number = copy_range(body, start, body.len());
            let n = number.as_slice();
            match numeric_prefix_exec(n) {
                None => Err(DefError::Syntax("long section needs a number")),
                Some((a, b)) => match find_byte(n, 0, n.len(), 0x2c) {
                    None => Err(DefError::Syntax("long section needs a unit")),
                    Some(c) => if c + 1 < n.len() && n[c + 1] == 0x6d {
                        Ok((Column::Z, Some((copy_range(n, a, b), at.is_some()))))
                    } else {
                        Err(DefError::Syntax("long section unit must be m"))
                    },
                },
            }
        },
        None => match find(l, 0, l.len(), rl) {
            None => Ok((Column::Ignored, None)),
            Some(i) => {
                let rest_v = copy_range(l, i + rl.len(), l.len());
                let rest = rest_v.as_slice();
                if contains_byte(rest, 0x78) || contains_byte(rest, 0x79) || contains_byte(
                    rest,
                    0x75,
                ) {
                    return Err(DefError::Unsupported("reference line x, y, or u data channels"));
                }
                let phi = find(rest, 0, rest.len(), "phi".as_bytes());
                let bank = find(rest, 0, rest.len(), "banking".as_bytes());
                let slope = find(rest, 0, rest.len(), "slope".as_bytes());
                let (at, column, unit) = match (phi, bank, slope) {
                    (Some(at), _, _) => (at, Column::Phi, "rad".as_bytes()),
                    (None, Some(at), _) => (at, Column::Bank, "m/m".as_bytes()),
                    (None, None, Some(at)) => (at, Column::Slope, "m/m".as_bytes()),
                    (None, None, None) => {
                        return Err(DefError::Syntax("unknown reference line channel"));
                    },
                };
                match find_byte(rest, at, rest.len(), 0x2c) {
                    None => Err(DefError::Syntax("reference line channel needs a unit")),
                    Some(c) => if find(rest, c, rest.len(), unit).is_some() {
                        Ok((column, None))
                    } else {
                        Err(DefError::Syntax("wrong reference line channel unit"))
                    },
                }
            },
        },
    }
}

/// The `$KD_Definition` block read so far.
pub struct DataDef {
    /// From the `#:` line.
    pub format: Option<Format>,
    /// One entry per data column, in file order.
    pub columns: Vec<Column>,
    /// `D:long section` definitions in file order.
    pub long_sections: Vec<LongSection>,
}

/// The contents of a [`DataDef`].
pub struct DataDefModel {
    pub format: Option<Format>,
    pub columns: Seq<Column>,
    pub long_sections: Seq<LongSectionModel>,
}

impl View for DataDef {
    type V = DataDefModel;

    open spec fn view(&self) -> DataDefModel {
        DataDefModel {
            format: self.format,
            columns: self.columns@,
            long_sections: Seq::new(
                self.long_sections@.len(),
                |i: int| self.long_sections@[i]@,
            ),
        }
    }
}

impl DataDefModel {
    pub open spec fn empty() -> DataDefModel {
        DataDefModel { format: None, columns: Seq::empty(), long_sections: Seq::empty() }
    }

    /// After the `$KD_Definition` line `line`, with leading spaces removed.
    pub open spec fn with(self, line: Seq<u8>) -> Result<DataDefModel, DefError> {
        let head = upper(line.subrange(0, 2));
        if line.len() < 2 {
            Ok(self)
        } else if head == "#:".spec_bytes() {
            Ok(
                DataDefModel {
                    format: Some(format_of(lossy_utf8(line.subrange(2, line.len() as int)))),
                    ..self
                },
            )
        } else if head == "D:".spec_bytes() {
            let end = match first_byte(line, 2, line.len() as int, 0x21) {
                Some(e) => e,
                None => line.len() as int,
            };
            match definition(line.subrange(2, end)) {
                Err(e) => Err(e),
                Ok((column, section)) => Ok(
                    DataDefModel {
                        columns: self.columns.push(column),
                        long_sections: match section {
                            Some((position, by_position)) => self.long_sections.push(
                                LongSectionModel {
                                    position,
                                    column: self.columns.len() as int,
                                    by_position,
                                },
                            ),
                            None => self.long_sections,
                        },
                        ..self
                    },
                ),
            }
        } else {
            Ok(self)
        }
    }
}

impl DataDef {
    /// Nothing defined.
    pub fn new() -> (d: DataDef)
        ensures
            d@ == DataDefModel::empty(),
    {
        let d = DataDef { format: None, columns: Vec::new(), long_sections: Vec::new() };
        assert(d@.long_sections =~= Seq::<LongSectionModel>::empty());
        d
    }

    /// Applies one `$KD_Definition` line with leading spaces removed. A line that fails
    /// leaves the definition as it was.
    pub fn apply(&mut self, line: &[u8]) -> (r: Result<(), DefError>)
        ensures
            match old(self)@.with(line@) {
                Ok(m) => r is Ok && final(self)@ == m,
                Err(DefError::Syntax(e)) => r matches Err(DefError::Syntax(e2)) && e2 == e,
                Err(DefError::Unsupported(e)) => r matches Err(DefError::Unsupported(e2)) && e2
                    == e,
            },
            r is Err ==> final(self)@ == old(self)@,
    {
        if line.len() < 2 {
            return Ok(());
        }
        let head = uppercase(line, 0, 2);
        if same_bytes(head.as_slice(), "#:".as_bytes()) {
            let code = lossy_text(copy_range(line, 2, line.len()).as_slice());
            self.format = Some(Format::from_code(code.as_str()));
            return Ok(());
        }
        if same_bytes(head.as_slice(), "D:".as_bytes()) {
            let end = match find_byte(line, 2, line.len(), 0x21) {
                Some(e) => e,
                None => line.len(),
            };
            let body = copy_range(line, 2, end);
            let column = self.columns.len();
            let (kind, section) = match define(body.as_slice()) {
                Ok(d) => d,
                Err(e) => return Err(e),
            };
            let ghost before = self.long_sections@;
            if let Some((position, by_position)) = section {
                self.long_sections.push(LongSection { position, column, by_position });
            }
            self.columns.push(kind);
            assert(self@.long_sections =~= old(self)@.with(line@)->Ok_0.long_sections);
            return Ok(());
        }
        Ok(())
    }
}

} // verus!
