//! The data section after `$$$$`: the record layout from the `#:` code, and decoding of the
//! records. Binary values are returned as their IEEE bit patterns and ASCII values as the
//! number text C's `atof` reads; the caller turns them into floats.

use vstd::prelude::*;
use vstd::std_specs::iter::IteratorSpec;
use vstd::string::StringSliceAdditionalSpecFns;
use crate::error::Error;
use crate::number::{numeric_prefix, numeric_prefix_exec, is_digit};
use crate::text::{copy_range, eol_byte, is_eol, line_end, next_line, same_bytes, split_line};

verus! {

broadcast use vstd::string::group_string_axioms;

/// Payload layout from the `#:` code, decoded as `decodeDataFormat` does.
#[derive(Clone, Copy, Debug, PartialEq, Eq, Structural)]
pub struct Format {
    /// `L`: every record starts on an 80-byte boundary. Otherwise records are packed (`K`).
    pub long: bool,
    /// `D`: double precision. Otherwise single.
    pub double: bool,
    /// `F`: formatted ASCII. Otherwise big-endian IEEE binary.
    pub ascii: bool,
}

/// The first four characters of `code`, or all of them if there are fewer.
pub open spec fn code_head(code: Seq<char>) -> Seq<char> {
    if code.len() <= 4 {
        code
    } else {
        code.subrange(0, 4)
    }
}

/// The format that the characters `code` after `#:` select.
pub open spec fn format_of(code: Seq<char>) -> Format {
    Format {
        long: code_head(code).contains('L'),
        double: code_head(code).contains('D'),
        ascii: code_head(code).contains('F'),
    }
}

/// Whether `ch` is among the first `n` characters of `s`.
pub open spec fn among_first(s: Seq<char>, n: int, ch: char) -> bool {
    exists|k: int| 0 <= k < n && k < s.len() && s[k] == ch
}

proof fn lemma_among_first_step(s: Seq<char>, n: int, ch: char)
    requires
        0 <= n < s.len(),
    ensures
        among_first(s, n + 1, ch) == (among_first(s, n, ch) || s[n] == ch),
{
    if s[n] == ch {
        assert(among_first(s, n + 1, ch));
    }
    if among_first(s, n + 1, ch) && s[n] != ch {
        let k = choose|k: int| 0 <= k < n + 1 && k < s.len() && s[k] == ch;
        assert(k < n);
    }
}

proof fn lemma_head_contains(s: Seq<char>, ch: char)
    ensures
        code_head(s).contains(ch) == among_first(s, 4, ch),
{
    if code_head(s).contains(ch) {
        let k = choose|k: int| 0 <= k < code_head(s).len() && code_head(s)[k] == ch;
        assert(s[k] == ch);
    }
    if among_first(s, 4, ch) {
        let k = choose|k: int| 0 <= k < 4 && k < s.len() && s[k] == ch;
        assert(code_head(s)[k] == ch);
    }
}

impl Format {
    /// Reads the flags from the first four characters after `#:`.
    pub fn from_code(code: &str) -> (f: Format)
        ensures
            f == format_of(code@),
    {
        let mut chars = code.chars();
        let mut long = false;
        let mut double = false;
        let mut ascii = false;
        let mut n: usize = 0;
        while n < 4
            invariant
                n <= 4,
                n <= code@.len(),
                chars.remaining() == code@.subrange(n as int, code@.len() as int),
                long == among_first(code@, n as int, 'L'),
                double == among_first(code@, n as int, 'D'),
                ascii == among_first(code@, n as int, 'F'),
            ensures
                long == among_first(code@, 4, 'L'),
                double == among_first(code@, 4, 'D'),
                ascii == among_first(code@, 4, 'F'),
            decreases 4 - n,
        {
            match chars.next() {
                Some(c) => {
                    assert(c == code@[n as int]);
                    proof {
                        lemma_among_first_step(code@, n as int, 'L');
                        lemma_among_first_step(code@, n as int, 'D');
                        lemma_among_first_step(code@, n as int, 'F');
                    }
                    long = long || c == 'L';
                    double = double || c == 'D';
                    ascii = ascii || c == 'F';
                    n += 1;
                },
                None => {
                    assert(n == code@.len());
                    assert forall|ch: char| among_first(code@, 4, ch) == among_first(
                        code@,
                        n as int,
                        ch,
                    ) by {
                        if among_first(code@, 4, ch) {
                            let k = choose|k: int| 0 <= k < 4 && k < code@.len() && code@[k] == ch;
                            assert(k < n);
                        }
                    }
                    break;
                },
            }
        }
        proof {
            lemma_head_contains(code@, 'L');
            lemma_head_contains(code@, 'D');
            lemma_head_contains(code@, 'F');
        }
        Format { long, double, ascii }
    }
}

/// Bytes per value.
pub open spec fn width_of(f: Format) -> int {
    if f.ascii {
        if f.double {
            20
        } else {
            10
        }
    } else if f.double {
        8
    } else {
        4
    }
}

/// Bytes per record of `channels` values: packed, or padded to whole 80-byte lines for the
/// long formats. `None` when that exceeds `usize`.
pub open spec fn record_size_of(f: Format, channels: int) -> Option<int> {
    let packed = width_of(f) * channels;
    if packed > usize::MAX {
        None
    } else if f.long {
        let padded = ((packed + 79) / 80) * 80;
        if padded > usize::MAX {
            None
        } else {
            Some(padded)
        }
    } else {
        Some(packed)
    }
}

impl Format {
    /// Bytes per value.
    pub fn value_width(self) -> (w: usize)
        ensures
            w == width_of(self),
    {
        if self.ascii {
            if self.double {
                20
            } else {
                10
            }
        } else if self.double {
            8
        } else {
            4
        }
    }

    /// Bytes per record for `channels` values; `None` on overflow.
    pub fn record_size(self, channels: usize) -> (r: Option<usize>)
        ensures
            r matches Some(n) ==> record_size_of(self, channels as int) == Some(n as int),
            r is None ==> record_size_of(self, channels as int) is None,
    {
        let w = self.value_width();
        if channels > usize::MAX / w {
            proof {
                lemma_div_bound(usize::MAX as int, w as int, channels as int);
            }
            return None;
        }
        proof {
            lemma_div_fits(usize::MAX as int, w as int, channels as int);
        }
        let packed = w * channels;
        if self.long {
            let lines = packed / 80 + if packed % 80 != 0 { 1 } else { 0 };
            assert(lines == (packed + 79) / 80);
            if lines > usize::MAX / 80 {
                None
            } else {
                Some(lines * 80)
            }
        } else {
            Some(packed)
        }
    }
}

proof fn lemma_div_bound(max: int, w: int, c: int)
    by (nonlinear_arith)
    requires
        w > 0,
        c > max / w,
        max >= 0,
    ensures
        w * c > max,
{
}

proof fn lemma_div_fits(max: int, w: int, c: int)
    by (nonlinear_arith)
    requires
        w > 0,
        0 <= c <= max / w,
        max >= 0,
    ensures
        w * c <= max,
{
}

/// One decoded value, before it becomes a float.
pub enum Value {
    /// Big-endian IEEE single precision, as its bit pattern.
    Single(u32),
    /// Big-endian IEEE double precision, as its bit pattern.
    Double(u64),
    /// An ASCII field's number, as the text C's `atof` reads.
    Decimal(Vec<u8>),
    /// An ASCII field that reads as 0: `**unused**`, or one without a number.
    Zero,
    /// An ASCII field with a character outside `0-9 + - . e E d D space`.
    NotANumber,
}

/// The contents of a [`Value`].
pub enum ValueModel {
    Single(u32),
    Double(u64),
    Decimal(Seq<u8>),
    Zero,
    NotANumber,
}

impl View for Value {
    type V = ValueModel;

    open spec fn view(&self) -> ValueModel {
        match self {
            Value::Single(b) => ValueModel::Single(*b),
            Value::Double(b) => ValueModel::Double(*b),
            Value::Decimal(t) => ValueModel::Decimal(t@),
            Value::Zero => ValueModel::Zero,
            Value::NotANumber => ValueModel::NotANumber,
        }
    }
}

/// The contents of a record.
pub open spec fn record_view(r: Seq<Value>) -> Seq<ValueModel> {
    Seq::new(r.len(), |j: int| r[j]@)
}

/// The contents of a list of records.
pub open spec fn records_view(rs: Seq<Vec<Value>>) -> Seq<Seq<ValueModel>> {
    Seq::new(rs.len(), |i: int| record_view(rs[i]@))
}

/// The big-endian 32-bit number at `at`.
pub open spec fn be_u32(d: Seq<u8>, at: int) -> u32 {
    (d[at] as int * 0x1000000 + d[at + 1] as int * 0x10000 + d[at + 2] as int * 0x100
        + d[at + 3] as int) as u32
}

/// The big-endian 64-bit number at `at`.
pub open spec fn be_u64(d: Seq<u8>, at: int) -> u64 {
    (d[at] as int * 0x100000000000000 + d[at + 1] as int * 0x1000000000000 + d[at + 2] as int
        * 0x10000000000 + d[at + 3] as int * 0x100000000 + d[at + 4] as int * 0x1000000 + d[at
        + 5] as int * 0x10000 + d[at + 6] as int * 0x100 + d[at + 7] as int) as u64
}

/// The binary value at `at`.
pub open spec fn binary_value(d: Seq<u8>, at: int, double: bool) -> ValueModel {
    if double {
        ValueModel::Double(be_u64(d, at))
    } else {
        ValueModel::Single(be_u32(d, at))
    }
}

/// The binary record starting at `start`.
pub open spec fn binary_record(d: Seq<u8>, start: int, f: Format, channels: int) -> Seq<
    ValueModel,
> {
    Seq::new(channels as nat, |j: int| binary_value(d, start + j * width_of(f), f.double))
}

fn read_binary(d: &[u8], at: usize, double: bool) -> (v: Value)
    requires
        at + if double {
            8int
        } else {
            4int
        } <= d@.len(),
    ensures
        v@ == binary_value(d@, at as int, double),
{
    if double {
        Value::Double(
            (d[at] as u64) * 0x100000000000000 + (d[at + 1] as u64) * 0x1000000000000 + (d[at
                + 2] as u64) * 0x10000000000 + (d[at + 3] as u64) * 0x100000000 + (d[at + 4]
                as u64) * 0x1000000 + (d[at + 5] as u64) * 0x10000 + (d[at + 6] as u64) * 0x100
                + (d[at + 7] as u64),
        )
    } else {
        Value::Single(
            (d[at] as u32) * 0x1000000 + (d[at + 1] as u32) * 0x10000 + (d[at + 2] as u32)
                * 0x100 + (d[at + 3] as u32),
        )
    }
}

/// Characters allowed in a numeric ASCII field: `0-9 + - . e E d D` and space.
pub open spec fn numeric_char(c: u8) -> bool {
    is_digit(c) || c == 0x2b || c == 0x2d || c == 0x2e || c == 0x65 || c == 0x45 || c == 0x64
        || c == 0x44 || c == 0x20
}

/// One fixed-width ASCII field, decoded as `decodeRecord` does: a field with any character
/// outside `0-9 + - . e E d D space` is NaN, except `**unused**`, which is 0; a numeric
/// field without a digit is 0.
pub open spec fn field_value(f: Seq<u8>) -> ValueModel {
    if forall|k: int| 0 <= k < f.len() ==> numeric_char(#[trigger] f[k]) {
        match numeric_prefix(f) {
            Some((a, b)) => ValueModel::Decimal(f.subrange(a, b)),
            None => ValueModel::Zero,
        }
    } else if f == "**unused**".spec_bytes() {
        ValueModel::Zero
    } else {
        ValueModel::NotANumber
    }
}

/// Decodes the field `text[a..b]`.
pub fn ascii_value(text: &[u8], a: usize, b: usize) -> (v: Value)
    requires
        a <= b <= text@.len(),
    ensures
        v@ == field_value(text@.subrange(a as int, b as int)),
{
    let field = copy_range(text, a, b);
    let f = field.as_slice();
    let mut i: usize = 0;
    while i < f.len()
        invariant
            i <= f@.len(),
            a <= b <= text@.len(),
            f@ == text@.subrange(a as int, b as int),
            forall|k: int| 0 <= k < i ==> numeric_char(#[trigger] f@[k]),
        decreases f@.len() - i,
    {
        let c = f[i];
        if !((0x30 <= c && c <= 0x39) || c == 0x2b || c == 0x2d || c == 0x2e || c == 0x65 || c
            == 0x45 || c == 0x64 || c == 0x44 || c == 0x20) {
            assert(!numeric_char(f@[i as int]));
            assert(!(forall|k: int| 0 <= k < f@.len() ==> numeric_char(#[trigger] f@[k])));
            assert(f@ == text@.subrange(a as int, b as int));
            let unused = "**unused**".as_bytes();
            assert(unused@ == "**unused**".spec_bytes());
            if same_bytes(f, unused) {
                assert(field_value(f@) == ValueModel::Zero);
                return Value::Zero;
            }
            assert(field_value(f@) == ValueModel::NotANumber);
            return Value::NotANumber;
        }
        i += 1;
    }
    match numeric_prefix_exec(f) {
        Some((a, b)) => Value::Decimal(copy_range(f, a, b)),
        None => Value::Zero,
    }
}

/// First position at or after `p` that is not a line terminator.
pub open spec fn skip_eols(d: Seq<u8>, p: int) -> int
    decreases d.len() - p,
{
    if 0 <= p < d.len() && eol_byte(d[p]) {
        skip_eols(d, p + 1)
    } else {
        p
    }
}

/// The text of up to `lines` lines from `p`, without terminators, and where they end.
pub open spec fn long_text(d: Seq<u8>, p: int, lines: nat) -> (Seq<u8>, int)
    decreases lines,
{
    if lines == 0 || p < 0 || p >= d.len() {
        (Seq::empty(), p)
    } else {
        let rest = long_text(d, next_line(d, p), (lines - 1) as nat);
        (d.subrange(p, line_end(d, p)) + rest.0, rest.1)
    }
}

/// The text of up to `fields` fields of `w` bytes from `p`, each after any line terminators,
/// and where they end. Stops before a field that the data cannot hold.
pub open spec fn compact_text(d: Seq<u8>, p: int, w: int, fields: nat) -> (Seq<u8>, int)
    decreases fields,
{
    if fields == 0 {
        (Seq::empty(), p)
    } else {
        let q = skip_eols(d, p);
        if q + w > d.len() {
            (Seq::empty(), q)
        } else {
            let rest = compact_text(d, q + w, w, (fields - 1) as nat);
            (d.subrange(q, q + w) + rest.0, rest.1)
        }
    }
}

/// The text of the ASCII record at `p`, and where the next one starts.
pub open spec fn record_text(d: Seq<u8>, p: int, f: Format, channels: int, size: int) -> (
    Seq<u8>,
    int,
) {
    if f.long {
        long_text(d, skip_eols(d, p), (size / 80) as nat)
    } else {
        compact_text(d, p, width_of(f), channels as nat)
    }
}

/// The values of a complete ASCII record text.
pub open spec fn ascii_fields(t: Seq<u8>, w: int, channels: int) -> Seq<ValueModel> {
    Seq::new(channels as nat, |j: int| field_value(t.subrange(j * w, j * w + w)))
}

/// The ASCII records from `p` up to the first incomplete one.
pub open spec fn ascii_records(d: Seq<u8>, p: int, f: Format, channels: int, size: int) -> Seq<
    Seq<ValueModel>,
>
    decreases d.len() - p,
{
    let (t, q) = record_text(d, p, f, channels, size);
    if t.len() < channels * width_of(f) || q <= p || q > d.len() {
        Seq::empty()
    } else {
        seq![ascii_fields(t, width_of(f), channels)] + ascii_records(d, q, f, channels, size)
    }
}

/// What [`decode_records`] returns.
pub open spec fn decoded(d: Seq<u8>, f: Format, channels: int, binary_records: int) -> Result<
    Seq<Seq<ValueModel>>,
    Error,
> {
    match record_size_of(f, channels) {
        None => Err(Error::TooLarge),
        Some(size) => if !f.ascii {
            let expected = size * binary_records;
            if expected > usize::MAX {
                Err(Error::TooLarge)
            } else if d.len() < expected {
                Err(Error::Truncated { expected: expected as usize, actual: d.len() as usize })
            } else {
                Ok(
                    Seq::new(
                        binary_records as nat,
                        |i: int| binary_record(d, i * size, f, channels),
                    ),
                )
            }
        } else {
            Ok(ascii_records(d, 0, f, channels, size))
        },
    }
}

proof fn lemma_skip_eols(d: Seq<u8>, p: int)
    requires
        0 <= p <= d.len(),
    ensures
        p <= skip_eols(d, p) <= d.len(),
    decreases d.len() - p,
{
    if p < d.len() && eol_byte(d[p]) {
        lemma_skip_eols(d, p + 1);
    }
}

proof fn lemma_next_line(d: Seq<u8>, p: int)
    requires
        0 <= p < d.len(),
    ensures
        p < next_line(d, p) <= d.len(),
        p <= line_end(d, p) <= next_line(d, p),
{
    crate::text::lemma_line_end(d, p);
}

proof fn lemma_long_text(d: Seq<u8>, p: int, lines: nat)
    requires
        0 <= p <= d.len(),
    ensures
        p <= long_text(d, p, lines).1 <= d.len(),
        long_text(d, p, lines).0.len() > 0 ==> long_text(d, p, lines).1 > p,
    decreases lines,
{
    if !(lines == 0 || p >= d.len()) {
        lemma_next_line(d, p);
        lemma_long_text(d, next_line(d, p), (lines - 1) as nat);
    }
}

proof fn lemma_compact_text(d: Seq<u8>, p: int, w: int, fields: nat)
    requires
        0 <= p <= d.len(),
        w > 0,
    ensures
        p <= compact_text(d, p, w, fields).1 <= d.len(),
        compact_text(d, p, w, fields).0.len() > 0 ==> compact_text(d, p, w, fields).1 > p,
        compact_text(d, p, w, fields).0.len() <= fields * w,
    decreases fields,
{
    if fields > 0 {
        lemma_skip_eols(d, p);
        let q = skip_eols(d, p);
        if q + w <= d.len() {
            lemma_compact_text(d, q + w, w, (fields - 1) as nat);
            assert((fields - 1) * w + w == fields * w) by (nonlinear_arith);
        }
    }
}

/// Appends `s[a..b]` to `text`.
fn append_range(text: &mut Vec<u8>, s: &[u8], a: usize, b: usize)
    requires
        a <= b <= s@.len(),
    ensures
        final(text)@ == old(text)@ + s@.subrange(a as int, b as int),
{
    let mut i = a;
    while i < b
        invariant
            a <= i <= b <= s@.len(),
            text@ == old(text)@ + s@.subrange(a as int, i as int),
        decreases b - i,
    {
        text.push(s[i]);
        i += 1;
        assert(s@.subrange(a as int, i as int) =~= s@.subrange(a as int, i - 1).push(s@[i - 1]));
        assert(text@ =~= old(text)@ + s@.subrange(a as int, i as int));
    }
}

fn skip_eols_exec(d: &[u8], p: usize) -> (q: usize)
    requires
        p <= d@.len(),
    ensures
        q == skip_eols(d@, p as int),
        p <= q <= d@.len(),
{
    proof {
        lemma_skip_eols(d@, p as int);
    }
    let mut q = p;
    while q < d.len() && is_eol(d[q])
        invariant
            p <= q <= d@.len(),
            skip_eols(d@, p as int) == skip_eols(d@, q as int),
        decreases d@.len() - q,
    {
        q += 1;
    }
    q
}

/// The text of up to `lines` lines from `p`, as [`long_text`].
fn read_lines(d: &[u8], p: usize, lines: usize) -> (r: (Vec<u8>, usize))
    requires
        p <= d@.len(),
    ensures
        (r.0@, r.1 as int) == long_text(d@, p as int, lines as nat),
{
    let mut text: Vec<u8> = Vec::new();
    let mut q = p;
    let mut k: usize = 0;
    while k < lines && q < d.len()
        invariant
            k <= lines,
            p <= q <= d@.len(),
            long_text(d@, p as int, lines as nat) == (
                text@ + long_text(d@, q as int, (lines - k) as nat).0,
                long_text(d@, q as int, (lines - k) as nat).1,
            ),
        decreases lines - k,
    {
        let (end, next) = split_line(d, q);
        proof {
            let rest = long_text(d@, next as int, (lines - k - 1) as nat);
            assert(long_text(d@, q as int, (lines - k) as nat) == (
                d@.subrange(q as int, end as int) + rest.0,
                rest.1,
            ));
            assert(text@ + (d@.subrange(q as int, end as int) + rest.0) =~= (text@
                + d@.subrange(q as int, end as int)) + rest.0);
        }
        append_range(&mut text, d, q, end);
        q = next;
        k += 1;
    }
    proof {
        assert(text@ + Seq::<u8>::empty() =~= text@);
    }
    (text, q)
}

/// The text of up to `fields` fields of `w` bytes from `p`, as [`compact_text`].
fn read_fields(d: &[u8], p: usize, w: usize, fields: usize) -> (r: (Vec<u8>, usize))
    requires
        p <= d@.len(),
    ensures
        (r.0@, r.1 as int) == compact_text(d@, p as int, w as int, fields as nat),
{
    let mut text: Vec<u8> = Vec::new();
    let mut q = p;
    let mut k: usize = 0;
    while k < fields
        invariant
            k <= fields,
            q <= d@.len(),
            compact_text(d@, p as int, w as int, fields as nat) == (
                text@ + compact_text(d@, q as int, w as int, (fields - k) as nat).0,
                compact_text(d@, q as int, w as int, (fields - k) as nat).1,
            ),
        decreases fields - k,
    {
        let at = skip_eols_exec(d, q);
        if w > d.len() - at {
            proof {
                assert(text@ + Seq::<u8>::empty() =~= text@);
            }
            return (text, at);
        }
        proof {
            let rest = compact_text(d@, at + w, w as int, (fields - k - 1) as nat);
            assert(text@ + (d@.subrange(at as int, at + w) + rest.0) =~= (text@
                + d@.subrange(at as int, at + w)) + rest.0);
        }
        append_range(&mut text, d, at, at + w);
        q = at + w;
        k += 1;
    }
    proof {
        assert(text@ + Seq::<u8>::empty() =~= text@);
    }
    (text, q)
}

/// The values of the complete record text `text`.
fn read_fields_of(text: &[u8], w: usize, channels: usize) -> (r: Vec<Value>)
    requires
        channels * w <= text@.len(),
    ensures
        record_view(r@) == ascii_fields(text@, w as int, channels as int),
{
    let mut r: Vec<Value> = Vec::new();
    let mut j: usize = 0;
    let mut at: usize = 0;
    let len = text.len();
    while j < channels
        invariant
            len == text@.len(),
            j <= channels,
            channels * w <= text@.len(),
            at == j * w,
            r@.len() == j,
            forall|k: int| 0 <= k < j ==> (#[trigger] r@[k])@ == field_value(
                text@.subrange(k * w, k * w + w),
            ),
        decreases channels - j,
    {
        proof {
            assert((j + 1) * w <= channels * w) by (nonlinear_arith)
                requires
                    j < channels,
            ;
            assert((j + 1) * w == j * w + w) by (nonlinear_arith);
        }
        assert(at + w <= channels * w);
        r.push(ascii_value(text, at, at + w));
        j += 1;
        at = at + w;
    }
    assert(record_view(r@) =~= ascii_fields(text@, w as int, channels as int));
    r
}

proof fn lemma_record_size(f: Format, channels: int)
    requires
        channels >= 0,
        record_size_of(f, channels) is Some,
    ensures
        record_size_of(f, channels)->0 >= width_of(f) * channels,
        f.long ==> record_size_of(f, channels)->0 / 80 * 80 == record_size_of(f, channels)->0,
{
    let packed = width_of(f) * channels;
    assert(((packed + 79) / 80) * 80 >= packed) by (nonlinear_arith)
        requires
            packed >= 0,
    ;
    assert(((packed + 79) / 80) * 80 / 80 * 80 == ((packed + 79) / 80) * 80) by (nonlinear_arith);
}

/// Decodes the records of `channels` values in `data`.
///
/// Binary payloads hold exactly `binary_records` records. ASCII payloads end at the first
/// incomplete record.
pub fn decode_records(data: &[u8], format: Format, channels: usize, binary_records: usize) -> (r:
    Result<Vec<Vec<Value>>, Error>)
    requires
        channels > 0,
    ensures
        match decoded(data@, format, channels as int, binary_records as int) {
            Ok(rs) => r matches Ok(v) && records_view(v@) == rs,
            Err(e) => r matches Err(e2) && e2 == e,
        },
{
    let size = match format.record_size(channels) {
        None => return Err(Error::TooLarge),
        Some(size) => size,
    };
    let w = format.value_width();
    proof {
        lemma_record_size(format, channels as int);
    }
    if !format.ascii {
        if binary_records != 0 && size > usize::MAX / binary_records {
            proof {
                lemma_div_bound(usize::MAX as int, binary_records as int, size as int);
                assert(binary_records * size == size * binary_records) by (nonlinear_arith);
            }
            return Err(Error::TooLarge);
        }
        proof {
            if binary_records != 0 {
                lemma_div_fits(usize::MAX as int, binary_records as int, size as int);
            }
            assert(binary_records * size == size * binary_records) by (nonlinear_arith);
        }
        let expected = size * binary_records;
        if data.len() < expected {
            return Err(Error::Truncated { expected, actual: data.len() });
        }
        let mut records: Vec<Vec<Value>> = Vec::new();
        let mut i: usize = 0;
        let mut start: usize = 0;
        while i < binary_records
            invariant
                i <= binary_records,
                start == i * size,
                expected == size * binary_records,
                expected <= data@.len(),
                size >= channels * w,
                w == width_of(format),
                !format.ascii,
                records@.len() == i,
                forall|k: int|
                    0 <= k < i ==> record_view(#[trigger] records@[k]@) == binary_record(
                        data@,
                        k * size,
                        format,
                        channels as int,
                    ),
            decreases binary_records - i,
        {
            proof {
                assert((i + 1) * size <= size * binary_records) by (nonlinear_arith)
                    requires
                        i < binary_records,
                        size >= 0,
                ;
                assert((i + 1) * size == i * size + size) by (nonlinear_arith);
            }
            let mut record: Vec<Value> = Vec::new();
            let mut j: usize = 0;
            let mut at = start;
            while j < channels
                invariant
                    j <= channels,
                    at == start + j * w,
                    start + size <= data@.len(),
                    size >= channels * w,
                    w == width_of(format),
                    !format.ascii,
                    record@.len() == j,
                    forall|m: int|
                        0 <= m < j ==> (#[trigger] record@[m])@ == binary_value(
                            data@,
                            start + m * w,
                            format.double,
                        ),
                decreases channels - j,
            {
                proof {
                    assert((j + 1) * w <= channels * w) by (nonlinear_arith)
                        requires
                            j < channels,
                            w >= 0,
                    ;
                    assert((j + 1) * w == j * w + w) by (nonlinear_arith);
                }
                record.push(read_binary(data, at, format.double));
                assert(at + w <= start + size);
                assert(start + size <= data.len());
                at = at + w;
                j += 1;
            }
            assert(record_view(record@) =~= binary_record(
                data@,
                i * size,
                format,
                channels as int,
            ));
            records.push(record);
            start = start + size;
            i += 1;
        }
        assert(records_view(records@) =~= Seq::new(
            binary_records as nat,
            |k: int| binary_record(data@, k * size, format, channels as int),
        ));
        return Ok(records);
    }
    let text_len = channels * w;
    let mut records: Vec<Vec<Value>> = Vec::new();
    let mut pos: usize = 0;
    loop
        invariant
            pos <= data@.len(),
            text_len == channels * w,
            w == width_of(format),
            channels > 0,
            format.ascii,
            record_size_of(format, channels as int) == Some(size as int),
            ascii_records(data@, 0, format, channels as int, size as int) == records_view(
                records@,
            ) + ascii_records(data@, pos as int, format, channels as int, size as int),
        decreases data@.len() - pos,
    {
        let (text, next) = if format.long {
            let q = skip_eols_exec(data, pos);
            read_lines(data, q, size / 80)
        } else {
            read_fields(data, pos, w, channels)
        };
        assert(record_text(data@, pos as int, format, channels as int, size as int) == (
            text@,
            next as int,
        ));
        proof {
            if format.long {
                lemma_skip_eols(data@, pos as int);
                lemma_long_text(data@, skip_eols(data@, pos as int), (size / 80) as nat);
            } else {
                lemma_compact_text(data@, pos as int, w as int, channels as nat);
            }
        }
        if text.len() < text_len {
            assert(records_view(records@) + Seq::<Seq<ValueModel>>::empty() =~= records_view(
                records@,
            ));
            return Ok(records);
        }
        let record = read_fields_of(text.as_slice(), w, channels);
        let ghost before = records@;
        records.push(record);
        proof {
            let rest = ascii_records(data@, next as int, format, channels as int, size as int);
            assert(ascii_records(data@, pos as int, format, channels as int, size as int) == seq![
                ascii_fields(text@, w as int, channels as int),
            ] + rest);
            assert(records_view(records@) =~= records_view(before).push(record_view(record@)));
            assert(records_view(before) + (seq![ascii_fields(text@, w as int, channels as int)]
                + rest) =~= records_view(records@) + rest);
        }
        pos = next;
    }
}

} // verus!
