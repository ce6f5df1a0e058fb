//! `$VARIABLE` references in the names of included files. A name has each `$NAME`
//! replaced by that environment variable, where `NAME` runs to the next `/`
//! (crgLoader.c:3290); looking the variables up is left to the caller.

use vstd::prelude::*;
use crate::text::{copy_range, find_byte, first_byte};

verus! {

/// A piece of a file name.
pub enum NamePart {
    /// Text taken as written.
    Text(Vec<u8>),
    /// The name of an environment variable whose value stands here.
    Variable(Vec<u8>),
}

/// The contents of a [`NamePart`].
pub enum NamePartModel {
    Text(Seq<u8>),
    Variable(Seq<u8>),
}

impl View for NamePart {
    type V = NamePartModel;

    open spec fn view(&self) -> NamePartModel {
        match self {
            NamePart::Text(t) => NamePartModel::Text(t@),
            NamePart::Variable(v) => NamePartModel::Variable(v@),
        }
    }
}

/// The pieces of `s[from..]`: text up to each `$`, then the variable named by what follows
/// it up to the next `/` or the end.
pub open spec fn name_parts_from(s: Seq<u8>, from: int) -> Seq<NamePartModel>
    decreases s.len() - from,
{
    if from < 0 || from > s.len() {
        Seq::empty()
    } else {
        match first_byte(s, from, s.len() as int, 0x24) {
            None => seq![NamePartModel::Text(s.subrange(from, s.len() as int))],
            Some(at) => {
                let end = match first_byte(s, at + 1, s.len() as int, 0x2f) {
                    Some(e) => e,
                    None => s.len() as int,
                };
                if end <= from || end > s.len() {
                    Seq::empty()
                } else {
                    seq![
                        NamePartModel::Text(s.subrange(from, at)),
                        NamePartModel::Variable(s.subrange(at + 1, end)),
                    ] + name_parts_from(s, end)
                }
            },
        }
    }
}

/// The text that a piece stands for in the name it came from.
pub open spec fn piece_text(p: NamePartModel) -> Seq<u8> {
    match p {
        NamePartModel::Text(t) => t,
        NamePartModel::Variable(v) => seq![0x24u8] + v,
    }
}

/// The pieces written out one after another.
pub open spec fn joined(parts: Seq<NamePartModel>) -> Seq<u8>
    decreases parts.len(),
{
    if parts.len() == 0 {
        Seq::empty()
    } else {
        piece_text(parts[0]) + joined(parts.drop_first())
    }
}

pub open spec fn parts_view(p: Seq<NamePart>) -> Seq<NamePartModel> {
    Seq::new(p.len(), |i: int| p[i]@)
}

/// Splits an include name into text and `$VARIABLE` references.
pub fn name_parts(name: &[u8]) -> (r: Vec<NamePart>)
    ensures
        parts_view(r@) == name_parts_from(name@, 0),
{
    let len = name.len();
    let mut parts: Vec<NamePart> = Vec::new();
    let mut from: usize = 0;
    loop
        invariant
            from <= len == name@.len(),
            name_parts_from(name@, 0) == parts_view(parts@) + name_parts_from(name@, from as int),
        decreases len - from,
    {
        proof {
            crate::text::lemma_first_byte(name@, from as int, len as int, 0x24);
        }
        match find_byte(name, from, len, 0x24) {
            None => {
                let ghost before = parts@;
                parts.push(NamePart::Text(copy_range(name, from, len)));
                assert(parts_view(parts@) =~= parts_view(before) + name_parts_from(
                    name@,
                    from as int,
                ));
                return parts;
            },
            Some(at) => {
                proof {
                    crate::text::lemma_first_byte(name@, at + 1, len as int, 0x2f);
                }
                let end = match find_byte(name, at + 1, len, 0x2f) {
                    Some(e) => e,
                    None => len,
                };
                let ghost before = parts@;
                parts.push(NamePart::Text(copy_range(name, from, at)));
                parts.push(NamePart::Variable(copy_range(name, at + 1, end)));
                assert(parts_view(parts@) =~= parts_view(before) + seq![
                    NamePartModel::Text(name@.subrange(from as int, at as int)),
                    NamePartModel::Variable(name@.subrange(at + 1, end as int)),
                ]);
                from = end;
            },
        }
    }
}

} // verus!
