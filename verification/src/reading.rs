//! Properties of reading single header lines: comment lines, border-mode precedence, and
//! the column kinds of `D:` definitions.

use vstd::prelude::*;
use vstd::string::StringSliceAdditionalSpecFns;
use crate::definition::{definition, Column};
use crate::header::{border_modes_of, OptionsModel};
use crate::scan::comment_line;
use crate::text::{find_from, lower, occurs_at};
use crate::types::BorderMode;

verus! {

/// A line whose first byte that is not a space is `*` is a comment line, however many
/// spaces come first.
pub proof fn star_after_spaces_is_a_comment(line: Seq<u8>, k: int)
    requires
        0 <= k < line.len(),
        forall|j: int| 0 <= j < k ==> line[j] == 0x20,
        line[k] == 0x2a,
    ensures
        comment_line(line),
{
    lemma_skip_blanks_to(line, 0, k);
}

/// A line is a comment line exactly when it is empty or its first byte that is not a space
/// is `*`; tabs and other bytes before the `*` make it no comment.
pub proof fn comment_lines_are_empty_or_start_with_a_star(line: Seq<u8>)
    ensures
        comment_line(line) <==> (line.len() == 0 || exists|k: int|
            0 <= k < line.len() && line[k] == 0x2a && forall|j: int|
                0 <= j < k ==> #[trigger] line[j] == 0x20),
{
    if line.len() > 0 {
        lemma_skip_blanks_bound(line, 0);
        lemma_skip_blanks_spaces(line, 0);
        let t = crate::scan::skip_blanks(line, 0);
        if exists|k: int|
            0 <= k < line.len() && line[k] == 0x2a && forall|j: int|
                0 <= j < k ==> #[trigger] line[j] == 0x20 {
            let k = choose|k: int|
                0 <= k < line.len() && line[k] == 0x2a && forall|j: int|
                    0 <= j < k ==> #[trigger] line[j] == 0x20;
            lemma_skip_blanks_to(line, 0, k);
        }
        if comment_line(line) {
            assert(0 <= t < line.len() && line[t] == 0x2a && forall|j: int|
                0 <= j < t ==> #[trigger] line[j] == 0x20);
        }
    }
}

proof fn lemma_skip_blanks_spaces(s: Seq<u8>, i: int)
    requires
        0 <= i <= s.len(),
    ensures
        forall|j: int| i <= j < crate::scan::skip_blanks(s, i) ==> #[trigger] s[j] == 0x20,
    decreases s.len() - i,
{
    if i < s.len() && s[i] == 0x20 {
        lemma_skip_blanks_spaces(s, i + 1);
    }
}

/// Putting a space in front of a line that is not empty does not change whether it is a
/// comment line.
pub proof fn leading_space_keeps_comments(line: Seq<u8>)
    requires
        line.len() > 0,
    ensures
        comment_line(seq![0x20u8] + line) == comment_line(line),
{
    let s = seq![0x20u8] + line;
    lemma_skip_blanks_shift(line, 0);
    assert(s[0] == 0x20);
    assert(crate::scan::skip_blanks(s, 0) == crate::scan::skip_blanks(s, 1));
    let t = crate::scan::skip_blanks(line, 0);
    lemma_skip_blanks_bound(line, 0);
    if t < line.len() {
        assert(s[t + 1] == line[t]);
    }
}

proof fn lemma_skip_blanks_bound(s: Seq<u8>, i: int)
    requires
        0 <= i <= s.len(),
    ensures
        i <= crate::scan::skip_blanks(s, i) <= s.len(),
    decreases s.len() - i,
{
    if i < s.len() && s[i] == 0x20 {
        lemma_skip_blanks_bound(s, i + 1);
    }
}

proof fn lemma_skip_blanks_to(s: Seq<u8>, i: int, k: int)
    requires
        0 <= i <= k < s.len(),
        forall|j: int| i <= j < k ==> s[j] == 0x20,
        s[k] != 0x20,
    ensures
        crate::scan::skip_blanks(s, i) == k,
    decreases k - i,
{
    if i < k {
        lemma_skip_blanks_to(s, i + 1, k);
    }
}

proof fn lemma_skip_blanks_shift(line: Seq<u8>, i: int)
    requires
        0 <= i <= line.len(),
    ensures
        crate::scan::skip_blanks(seq![0x20u8] + line, i + 1) == crate::scan::skip_blanks(line, i)
            + 1,
    decreases line.len() - i,
{
    let s = seq![0x20u8] + line;
    if i < line.len() {
        assert(s[i + 1] == line[i]);
        if line[i] == 0x20 {
            lemma_skip_blanks_shift(line, i + 1);
        }
    }
}

/// Along each direction, the file's border mode applies where the file sets one, and the
/// caller's mode where it does not, whatever the other direction holds.
pub proof fn file_border_mode_else_callers(
    file: Option<OptionsModel>,
    caller_u: BorderMode,
    caller_v: BorderMode,
)
    ensures
        border_modes_of(file, caller_u, caller_v).0 == match file {
            Some(o) => match o.border_mode_u {
                Some(m) => m,
                None => caller_u,
            },
            None => caller_u,
        },
        border_modes_of(file, caller_u, caller_v).1 == match file {
            Some(o) => match o.border_mode_v {
                Some(m) => m,
                None => caller_v,
            },
            None => caller_v,
        },
{
}

/// The border mode along v depends on the file's v setting and the caller's v mode only,
/// and along u on the u ones only.
pub proof fn border_directions_are_independent(
    a: Option<OptionsModel>,
    b: Option<OptionsModel>,
    u1: BorderMode,
    v1: BorderMode,
    u2: BorderMode,
    v2: BorderMode,
)
    ensures
        (match a {
            Some(o) => o.border_mode_v,
            None => None,
        }) == (match b {
            Some(o) => o.border_mode_v,
            None => None,
        }) && v1 == v2 ==> border_modes_of(a, u1, v1).1 == border_modes_of(b, u2, v2).1,
        (match a {
            Some(o) => o.border_mode_u,
            None => None,
        }) == (match b {
            Some(o) => o.border_mode_u,
            None => None,
        }) && u1 == u2 ==> border_modes_of(a, u1, v1).0 == border_modes_of(b, u2, v2).0,
{
}

proof fn lemma_found(s: Seq<u8>, from: int, to: int, pat: Seq<u8>)
    requires
        find_from(s, from, to, pat) is Some,
    ensures
        from <= find_from(s, from, to, pat)->Some_0,
        find_from(s, from, to, pat)->Some_0 + pat.len() <= to,
        occurs_at(s, find_from(s, from, to, pat)->Some_0, pat),
    decreases to + 1 - from,
{
    if !(from < 0 || from + pat.len() > to) && !occurs_at(s, from, pat) {
        lemma_found(s, from + 1, to, pat);
    }
}

proof fn lemma_finds(s: Seq<u8>, from: int, to: int, pat: Seq<u8>, q: int)
    requires
        0 <= from <= q,
        q + pat.len() <= to,
        occurs_at(s, q, pat),
    ensures
        find_from(s, from, to, pat) is Some,
    decreases q - from,
{
    if !occurs_at(s, from, pat) {
        lemma_finds(s, from + 1, to, pat, q);
    }
}

/// Whether `pat` occurs somewhere in `s`.
pub open spec fn mentions(s: Seq<u8>, pat: Seq<u8>) -> bool {
    exists|q: int| occurs_at(s, q, pat)
}

/// A `D:` line that defines a reference-line channel names it and its unit: a heading
/// column mentions `phi` and `rad`, a banking column `banking` and `m/m`, and a slope column
/// `slope` and `m/m`, in any case.
pub proof fn reference_channels_are_named_by_their_kind(body: Seq<u8>)
    ensures
        definition(body) == Ok::<(Column, Option<(Seq<u8>, bool)>), crate::definition::DefError>(
            (Column::Phi, None),
        ) ==> mentions(lower(body), "phi".spec_bytes()) && mentions(
            lower(body),
            "rad".spec_bytes(),
        ),
        definition(body) == Ok::<(Column, Option<(Seq<u8>, bool)>), crate::definition::DefError>(
            (Column::Bank, None),
        ) ==> mentions(lower(body), "banking".spec_bytes()) && mentions(
            lower(body),
            "m/m".spec_bytes(),
        ),
        definition(body) == Ok::<(Column, Option<(Seq<u8>, bool)>), crate::definition::DefError>(
            (Column::Slope, None),
        ) ==> mentions(lower(body), "slope".spec_bytes()) && mentions(
            lower(body),
            "m/m".spec_bytes(),
        ),
{
    let low = lower(body);
    let rl = "reference line".spec_bytes();
    if find_from(low, 0, low.len() as int, "long section".spec_bytes()) is None {
        if find_from(low, 0, low.len() as int, rl) is Some {
            lemma_found(low, 0, low.len() as int, rl);
            let i = find_from(low, 0, low.len() as int, rl)->Some_0;
            let start = i + rl.len();
            let rest = low.subrange(start, low.len() as int);
            assert forall|pat: Seq<u8>|
                #![trigger mentions(low, pat)]
                exists|from: int| 0 <= from && #[trigger] find_from(rest, from, rest.len() as int, pat) is Some
                    implies mentions(low, pat) by {
                let from = choose|from: int| 0 <= from && #[trigger] find_from(rest, from, rest.len() as int, pat) is Some;
                lemma_found(rest, from, rest.len() as int, pat);
                let p = find_from(rest, from, rest.len() as int, pat)->Some_0;
                assert(low.subrange(start + p, start + p + pat.len()) =~= rest.subrange(
                    p,
                    p + pat.len(),
                ));
                assert(occurs_at(low, start + p, pat));
            }
        }
    }
}

} // verus!
