//! Filling NaN holes in the grid, as `GRID_NAN_MODE` asks: which value each hole takes.
//!
//! Within each cross section, a first sweep runs toward the left and a second one back
//! toward the right. A hole takes the NaN offset (`SetZero`), or its neighbour's value,
//! where the first value a sweep fills also gets the offset added (`KeepLast`). Whether a
//! value is NaN is all the sweeps read, so they are stated over NaN flags: the caller gives
//! the flags of each value, of each value plus the offset, and of each value plus the
//! offset twice, and applies the resulting [`Fill`]s to the values.

use vstd::prelude::*;
use crate::types::NanMode;

verus! {

/// What a grid value becomes.
#[derive(Clone, Copy, Debug, PartialEq, Eq, Structural)]
pub enum Fill {
    /// The NaN offset.
    Offset,
    /// The value that stood at `from` before filling, with the NaN offset added `adds`
    /// times. `from` is the value's own position where nothing changes.
    From { from: usize, adds: u8 },
}

/// Which of the candidate values are NaN.
pub struct NanFlags {
    /// Each grid value.
    pub plain: Vec<bool>,
    /// Each grid value plus the offset.
    pub once: Vec<bool>,
    /// Each grid value plus the offset, plus the offset again.
    pub twice: Vec<bool>,
    /// The offset itself.
    pub offset: bool,
}

/// The contents of a [`NanFlags`].
pub struct NanFlagsModel {
    pub plain: Seq<bool>,
    pub once: Seq<bool>,
    pub twice: Seq<bool>,
    pub offset: bool,
}

impl View for NanFlags {
    type V = NanFlagsModel;

    open spec fn view(&self) -> NanFlagsModel {
        NanFlagsModel {
            plain: self.plain@,
            once: self.once@,
            twice: self.twice@,
            offset: self.offset,
        }
    }
}

/// Whether the value that `f` stands for is NaN.
pub open spec fn is_hole(f: Fill, h: NanFlagsModel) -> bool {
    match f {
        Fill::Offset => h.offset,
        Fill::From { from, adds } => if adds == 0 {
            h.plain[from as int]
        } else if adds == 1 {
            h.once[from as int]
        } else {
            h.twice[from as int]
        },
    }
}

/// `f` with the offset added once more.
pub open spec fn with_offset(f: Fill) -> Fill {
    match f {
        Fill::Offset => Fill::Offset,
        Fill::From { from, adds } => Fill::From { from, adds: (adds + 1) as u8 },
    }
}

/// The first sweep over the cross section starting at `b`, from position `iv` on: a hole
/// takes the offset, or its left neighbour's value; the first value it fills gets the
/// offset unless `applied` says it was added already. Returns the values and `applied`.
pub open spec fn forward(
    p: Seq<Fill>,
    applied: bool,
    b: int,
    nv: int,
    iv: int,
    mode: NanMode,
    h: NanFlagsModel,
) -> (Seq<Fill>, bool)
    decreases nv - iv,
{
    if iv >= nv || iv < 1 {
        (p, applied)
    } else {
        let i = b + iv;
        let (p2, a2) = if !is_hole(p[i], h) {
            (p, applied)
        } else {
            match mode {
                NanMode::SetZero => (p.update(i, Fill::Offset), applied),
                NanMode::KeepLast => if !is_hole(p[i - 1], h) && !applied {
                    (p.update(i, with_offset(p[i - 1])), true)
                } else {
                    (p.update(i, p[i - 1]), applied)
                },
                NanMode::Keep => (p, applied),
            }
        };
        forward(p2, a2, b, nv, iv + 1, mode, h)
    }
}

/// The second sweep over the cross section starting at `b`, from position `iv` down to 1:
/// a hole left of a value takes the offset, or that value; the first one it fills gets the
/// offset unless `applied` says it was added already.
pub open spec fn backward(
    p: Seq<Fill>,
    applied: bool,
    b: int,
    iv: int,
    mode: NanMode,
    h: NanFlagsModel,
) -> (Seq<Fill>, bool)
    decreases iv,
{
    if iv < 1 {
        (p, applied)
    } else {
        let i = b + iv;
        let (p2, a2) = if !(is_hole(p[i - 1], h) && !is_hole(p[i], h)) {
            (p, applied)
        } else {
            match mode {
                NanMode::SetZero => (p.update(i - 1, Fill::Offset), applied),
                NanMode::KeepLast => if !applied {
                    (p.update(i - 1, with_offset(p[i])), true)
                } else {
                    (p.update(i - 1, p[i]), applied)
                },
                NanMode::Keep => (p, applied),
            }
        };
        backward(p2, a2, b, iv - 1, mode, h)
    }
}

/// Both sweeps over the cross section starting at `b`. The flag is cleared before the
/// second sweep only, so what the second sweep leaves in it carries into the next cross
/// section's first sweep.
pub open spec fn section_fill(
    p: Seq<Fill>,
    applied: bool,
    b: int,
    nv: int,
    mode: NanMode,
    h: NanFlagsModel,
) -> (Seq<Fill>, bool) {
    let (p1, _) = forward(p, applied, b, nv, 1, mode, h);
    backward(p1, false, b, nv - 1, mode, h)
}

/// Cross sections `k` to `count - 1`, in order.
pub open spec fn sections(
    p: Seq<Fill>,
    applied: bool,
    k: int,
    count: int,
    nv: int,
    mode: NanMode,
    h: NanFlagsModel,
) -> Seq<Fill>
    decreases count - k,
{
    if k >= count {
        p
    } else {
        let (p2, a2) = section_fill(p, applied, k * nv, nv, mode, h);
        sections(p2, a2, k + 1, count, nv, mode, h)
    }
}

/// Every value as it is.
pub open spec fn unchanged(n: nat) -> Seq<Fill> {
    Seq::new(n, |i: int| Fill::From { from: i as usize, adds: 0 })
}

/// What each value of a grid with `nv` long sections becomes, for the NaN flags `h`. Values
/// after the last whole cross section stay as they are.
pub open spec fn nan_fill(h: NanFlagsModel, nv: int, mode: NanMode) -> Seq<Fill> {
    sections(unchanged(h.plain.len()), false, 0, h.plain.len() as int / nv, nv, mode, h)
}

/// The last position from `b` to `j` that holds a number, if any.
pub open spec fn number_at_or_before(plain: Seq<bool>, b: int, j: int) -> Option<int>
    decreases j - b + 1,
{
    if j < b {
        None
    } else if !plain[j] {
        Some(j)
    } else {
        number_at_or_before(plain, b, j - 1)
    }
}

/// The first position from `j` to before `e` that holds a number, if any.
pub open spec fn number_at_or_after(plain: Seq<bool>, j: int, e: int) -> Option<int>
    decreases e - j,
{
    if j >= e {
        None
    } else if !plain[j] {
        Some(j)
    } else {
        number_at_or_after(plain, j + 1, e)
    }
}

/// What `KeepLast` makes of the value at `j` in the cross section from `b` to before `e`,
/// where adding the offset to a number gives a number: a number stays; a hole takes the
/// nearest number to its left, or else the nearest one to its right plus the offset; in a
/// cross section without numbers every value takes the first one. The offset is added at
/// most once.
pub open spec fn keep_last_fill(plain: Seq<bool>, b: int, e: int, j: int, f: Fill) -> bool {
    &&& f matches Fill::From { from, adds }
    &&& adds_of(f) <= 1
    &&& !plain[j] ==> f == Fill::From { from: j as usize, adds: 0 }
    &&& plain[j] ==> match number_at_or_before(plain, b, j) {
        Some(l) => f->from == l,
        None => match number_at_or_after(plain, j, e) {
            Some(r) => f->from == r && adds_of(f) == 1,
            None => f->from == b && adds_of(f) == 0,
        },
    }
}

fn hole(f: Fill, h: &NanFlags) -> (r: bool)
    requires
        h.plain@.len() == h.once@.len() == h.twice@.len(),
        f matches Fill::From { from, .. } ==> from < h.plain@.len(),
    ensures
        r == is_hole(f, h@),
{
    match f {
        Fill::Offset => h.offset,
        Fill::From { from, adds } => if adds == 0 {
            h.plain[from]
        } else if adds == 1 {
            h.once[from]
        } else {
            h.twice[from]
        },
    }
}

/// The number of offsets a fill adds.
pub open spec fn adds_of(f: Fill) -> int {
    match f {
        Fill::Offset => 0,
        Fill::From { adds, .. } => adds as int,
    }
}

/// Whether every fill in `p` points into the grid and adds the offset at most `max` times
/// at positions from `lo` to `hi`, and at most twice elsewhere.
pub open spec fn bounded(p: Seq<Fill>, n: int, lo: int, hi: int, max: int) -> bool {
    &&& p.len() == n
    &&& forall|i: int|
        0 <= i < n ==> (#[trigger] p[i] matches Fill::From { from, .. } ==> from < n)
    &&& forall|i: int| 0 <= i < n ==> adds_of(#[trigger] p[i]) <= 2
    &&& forall|i: int| lo <= i < hi ==> adds_of(#[trigger] p[i]) <= max
}

pub proof fn lemma_section_fits(k: int, nv: int, n: int)
    requires
        nv > 0,
        n >= 0,
        0 <= k < n / nv,
    ensures
        k * nv + nv <= n,
        k * nv >= 0,
{
    assert(k * nv + nv == (k + 1) * nv) by (nonlinear_arith);
    assert((k + 1) * nv <= (n / nv) * nv) by (nonlinear_arith)
        requires
            k + 1 <= n / nv,
            nv > 0,
    ;
    assert((n / nv) * nv <= n) by (nonlinear_arith)
        requires
            nv > 0,
            n >= 0,
    ;
    assert(k * nv >= 0) by (nonlinear_arith)
        requires
            k >= 0,
            nv > 0,
    ;
}

/// What each grid value becomes when the NaN holes are filled in `mode`, as [`nan_fill`]
/// says, for a grid with `nv` long sections whose values have the NaN flags `h`. No value
/// gets the offset more than twice.
pub fn nan_fill_plan(h: &NanFlags, nv: usize, mode: NanMode) -> (r: Vec<Fill>)
    requires
        nv > 0,
        h.plain@.len() == h.once@.len() == h.twice@.len(),
    ensures
        r@ == nan_fill(h@, nv as int, mode),
        forall|i: int| 0 <= i < r@.len() ==> adds_of(#[trigger] r@[i]) <= 2,
        forall|i: int|
            0 <= i < r@.len() ==> (#[trigger] r@[i] matches Fill::From { from, .. } ==> from
                < r@.len()),
{
    let n = h.plain.len();
    let mut plan: Vec<Fill> = Vec::new();
    let mut i: usize = 0;
    while i < n
        invariant
            i <= n,
            plan@ == unchanged(n as nat).subrange(0, i as int),
        decreases n - i,
    {
        plan.push(Fill::From { from: i, adds: 0 });
        i += 1;
        assert(plan@ =~= unchanged(n as nat).subrange(0, i as int));
    }
    assert(plan@ =~= unchanged(n as nat));
    let ghost hm = h@;
    let count = n / nv;
    let mut applied = false;
    let mut k: usize = 0;
    while k < count
        invariant
            n == h.plain@.len() == h.once@.len() == h.twice@.len(),
            hm == h@,
            nv > 0,
            count == n / nv,
            k <= count,
            nan_fill(hm, nv as int, mode) == sections(
                plan@,
                applied,
                k as int,
                count as int,
                nv as int,
                mode,
                hm,
            ),
            bounded(plan@, n as int, k * nv, n as int, 0),
            mode != NanMode::SetZero ==> forall|m: int| 0 <= m < n ==> #[trigger] plan@[m] is From,
        decreases count - k,
    {
        proof {
            lemma_section_fits(k as int, nv as int, n as int);
        }
        let b = k * nv;
        let ghost p0 = plan@;
        let ghost a0 = applied;
        let ghost mut done = false;
        let mut iv: usize = 1;
        while iv < nv
            invariant
                n == h.plain@.len() == h.once@.len() == h.twice@.len(),
                hm == h@,
                b + nv <= n,
                1 <= iv,
                iv <= nv,
                forward(p0, a0, b as int, nv as int, 1, mode, hm) == forward(
                    plan@,
                    applied,
                    b as int,
                    nv as int,
                    iv as int,
                    mode,
                    hm,
                ),
                bounded(plan@, n as int, b as int, n as int, if done { 1 } else { 0 }),
                done ==> applied,
                forall|m: int| b + nv <= m < n ==> adds_of(#[trigger] plan@[m]) == 0,
                mode != NanMode::SetZero ==> forall|m: int| 0 <= m < n ==> #[trigger] plan@[m] is From,
            decreases nv - iv,
        {
            let i = b + iv;
            let f = plan[i];
            if hole(f, h) {
                match mode {
                    NanMode::SetZero => {
                        plan.set(i, Fill::Offset);
                    },
                    NanMode::KeepLast => {
                        let c = plan[i - 1];
                        if !hole(c, h) && !applied {
                            let added = match c {
                                Fill::From { from, adds } => Fill::From { from, adds: adds + 1 },
                                Fill::Offset => Fill::Offset,
                            };
                            plan.set(i, added);
                            applied = true;
                            proof {
                                done = true;
                            }
                        } else {
                            plan.set(i, c);
                        }
                    },
                    NanMode::Keep => {},
                }
            }
            iv += 1;
        }
        assert(forward(plan@, applied, b as int, nv as int, iv as int, mode, hm) == (plan@, applied));
        applied = false;
        let ghost p1 = plan@;
        proof {
            done = false;
        }
        let mut iv: usize = nv - 1;
        while iv >= 1
            invariant
                n == h.plain@.len() == h.once@.len() == h.twice@.len(),
                hm == h@,
                b + nv <= n,
                iv < nv,
                backward(p1, false, b as int, nv - 1, mode, hm) == backward(
                    plan@,
                    applied,
                    b as int,
                    iv as int,
                    mode,
                    hm,
                ),
                bounded(plan@, n as int, b as int, n as int, if done { 2 } else { 1 }),
                done ==> applied,
                forall|m: int| b + nv <= m < n ==> adds_of(#[trigger] plan@[m]) == 0,
                mode != NanMode::SetZero ==> forall|m: int| 0 <= m < n ==> #[trigger] plan@[m] is From,
            decreases iv,
        {
            let i = b + iv;
            if hole(plan[i - 1], h) && !hole(plan[i], h) {
                match mode {
                    NanMode::SetZero => {
                        plan.set(i - 1, Fill::Offset);
                    },
                    NanMode::KeepLast => {
                        let c = plan[i];
                        if !applied {
                            let added = match c {
                                Fill::From { from, adds } => Fill::From { from, adds: adds + 1 },
                                Fill::Offset => Fill::Offset,
                            };
                            plan.set(i - 1, added);
                            applied = true;
                            proof {
                                done = true;
                            }
                        } else {
                            plan.set(i - 1, c);
                        }
                    },
                    NanMode::Keep => {},
                }
            }
            iv -= 1;
        }
        assert(backward(plan@, applied, b as int, iv as int, mode, hm) == (plan@, applied));
        assert((k + 1) * nv == b + nv) by (nonlinear_arith)
            requires
                b == k * nv,
        ;
        k += 1;
    }
    plan
}

} // verus!
