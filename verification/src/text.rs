//! Byte-level text handling for `.crg` headers. Header lines are handled as their UTF-8
//! bytes; whitespace means the Unicode `White_Space` characters that `str::trim` removes,
//! recognised by their UTF-8 encodings.

use vstd::prelude::*;

verus! {

/// `\n` or `\r`.
pub open spec fn eol_byte(b: u8) -> bool {
    b == 0x0a || b == 0x0d
}

/// Whether `byte` ends a line.
pub fn is_eol(byte: u8) -> (r: bool)
    ensures
        r == eol_byte(byte),
{
    byte == 0x0a || byte == 0x0d
}

/// Index of the first line terminator at or after `pos`, or the length of `data`.
pub open spec fn line_end(data: Seq<u8>, pos: int) -> int
    decreases data.len() - pos,
{
    if pos >= data.len() {
        data.len() as int
    } else if eol_byte(data[pos]) {
        pos
    } else {
        line_end(data, pos + 1)
    }
}

/// Offset after the terminator of the line starting at `pos`. `\r\n`, `\n`, and `\r`
/// each count as one terminator.
pub open spec fn next_line(data: Seq<u8>, pos: int) -> int {
    let end = line_end(data, pos);
    if end >= data.len() {
        data.len() as int
    } else if data[end] == 0x0d && end + 1 < data.len() && data[end + 1] == 0x0a {
        end + 2
    } else {
        end + 1
    }
}

pub proof fn lemma_line_end(data: Seq<u8>, pos: int)
    requires
        0 <= pos <= data.len(),
    ensures
        pos <= line_end(data, pos) <= data.len(),
        forall|k: int| pos <= k < line_end(data, pos) ==> !eol_byte(#[trigger] data[k]),
        line_end(data, pos) < data.len() ==> eol_byte(data[line_end(data, pos)]),
    decreases data.len() - pos,
{
    if pos < data.len() && !eol_byte(data[pos]) {
        lemma_line_end(data, pos + 1);
    }
}

/// The line starting at `pos` ends at `res.0`, without its terminator, and the next line
/// starts at `res.1`.
pub fn split_line(data: &[u8], pos: usize) -> (res: (usize, usize))
    requires
        pos <= data@.len(),
    ensures
        res.0 == line_end(data@, pos as int),
        res.1 == next_line(data@, pos as int),
        pos <= res.0 <= res.1 <= data@.len(),
        pos < data@.len() ==> pos < res.1,
        forall|k: int| pos <= k < res.0 ==> !eol_byte(#[trigger] data@[k]),
{
    proof {
        lemma_line_end(data@, pos as int);
    }
    let mut end = pos;
    while end < data.len() && !is_eol(data[end])
        invariant
            pos <= end <= data@.len(),
            line_end(data@, pos as int) == line_end(data@, end as int),
        decreases data@.len() - end,
    {
        end += 1;
    }
    if end >= data.len() {
        (end, end)
    } else if data[end] == 0x0d && end + 1 < data.len() && data[end + 1] == 0x0a {
        (end, end + 2)
    } else {
        (end, end + 1)
    }
}

/// ASCII bytes that Rust's `char::is_whitespace` accepts: tab, line feed, vertical tab,
/// form feed, carriage return, and space.
pub open spec fn ascii_space(b: u8) -> bool {
    b == 0x20 || (0x09 <= b && b <= 0x0d)
}

/// UTF-8 encodings of U+1680, U+2000 to U+200A, U+2028, U+2029, U+202F, U+205F, U+3000.
pub open spec fn wide_space(a: u8, b: u8, c: u8) -> bool {
    ||| a == 0xe1 && b == 0x9a && c == 0x80
    ||| a == 0xe2 && b == 0x80 && ((0x80 <= c && c <= 0x8a) || c == 0xa8 || c == 0xa9 || c == 0xaf)
    ||| a == 0xe2 && b == 0x81 && c == 0x9f
    ||| a == 0xe3 && b == 0x80 && c == 0x80
}

/// Length of the encoding of a `White_Space` character starting at `i`, or 0 if none does.
/// U+0085 and U+00A0 take two bytes.
pub open spec fn space_at(s: Seq<u8>, i: int) -> int {
    if 0 <= i < s.len() && ascii_space(s[i]) {
        1
    } else if 0 <= i && i + 1 < s.len() && s[i] == 0xc2 && (s[i + 1] == 0x85 || s[i + 1]
        == 0xa0) {
        2
    } else if 0 <= i && i + 2 < s.len() && wide_space(s[i], s[i + 1], s[i + 2]) {
        3
    } else {
        0
    }
}

/// Length of the encoding of a `White_Space` character ending just before `e`, or 0.
pub open spec fn space_before(s: Seq<u8>, e: int) -> int {
    if 1 <= e <= s.len() && ascii_space(s[e - 1]) {
        1
    } else if 2 <= e <= s.len() && s[e - 2] == 0xc2 && (s[e - 1] == 0x85 || s[e - 1] == 0xa0) {
        2
    } else if 3 <= e <= s.len() && wide_space(s[e - 3], s[e - 2], s[e - 1]) {
        3
    } else {
        0
    }
}

/// First position at or after `i` where no whitespace character starts.
pub open spec fn skip_spaces(s: Seq<u8>, i: int) -> int
    decreases s.len() - i,
{
    if 0 <= i < s.len() && space_at(s, i) > 0 {
        skip_spaces(s, i + space_at(s, i))
    } else {
        i
    }
}

/// End of `s[lo..e]` with trailing whitespace characters removed.
pub open spec fn trim_back(s: Seq<u8>, lo: int, e: int) -> int
    decreases e - lo,
{
    if lo < e && space_before(s, e) > 0 && e - space_before(s, e) >= lo {
        trim_back(s, lo, e - space_before(s, e))
    } else {
        e
    }
}

pub proof fn lemma_skip_spaces(s: Seq<u8>, i: int)
    requires
        0 <= i <= s.len(),
    ensures
        i <= skip_spaces(s, i) <= s.len(),
    decreases s.len() - i,
{
    if i < s.len() && space_at(s, i) > 0 {
        lemma_skip_spaces(s, i + space_at(s, i));
    }
}

pub proof fn lemma_trim_back(s: Seq<u8>, lo: int, e: int)
    requires
        lo <= e,
    ensures
        lo <= trim_back(s, lo, e) <= e,
    decreases e - lo,
{
    if lo < e && space_before(s, e) > 0 && e - space_before(s, e) >= lo {
        lemma_trim_back(s, lo, e - space_before(s, e));
    }
}

fn wide_space_exec(a: u8, b: u8, c: u8) -> (r: bool)
    ensures
        r == wide_space(a, b, c),
{
    (a == 0xe1 && b == 0x9a && c == 0x80) || (a == 0xe2 && b == 0x80 && ((0x80 <= c && c
        <= 0x8a) || c == 0xa8 || c == 0xa9 || c == 0xaf)) || (a == 0xe2 && b == 0x81 && c
        == 0x9f) || (a == 0xe3 && b == 0x80 && c == 0x80)
}

/// Length of the whitespace character starting at `i`, or 0.
pub fn space_len_at(s: &[u8], i: usize) -> (n: usize)
    requires
        i <= s@.len(),
    ensures
        n == space_at(s@, i as int),
{
    let len = s.len();
    if i < len && (s[i] == 0x20 || (0x09 <= s[i] && s[i] <= 0x0d)) {
        1
    } else if i < len && len - i > 1 && s[i] == 0xc2 && (s[i + 1] == 0x85 || s[i + 1] == 0xa0) {
        2
    } else if i < len && len - i > 2 && wide_space_exec(s[i], s[i + 1], s[i + 2]) {
        3
    } else {
        0
    }
}

/// Length of the whitespace character ending just before `e`, or 0.
pub fn space_len_before(s: &[u8], e: usize) -> (n: usize)
    requires
        e <= s@.len(),
    ensures
        n == space_before(s@, e as int),
{
    if 1 <= e && (s[e - 1] == 0x20 || (0x09 <= s[e - 1] && s[e - 1] <= 0x0d)) {
        1
    } else if 2 <= e && s[e - 2] == 0xc2 && (s[e - 1] == 0x85 || s[e - 1] == 0xa0) {
        2
    } else if 3 <= e && wide_space_exec(s[e - 3], s[e - 2], s[e - 1]) {
        3
    } else {
        0
    }
}

/// Skips whitespace characters from `i`, as `str::trim_start` does.
pub fn skip_space(s: &[u8], i: usize) -> (j: usize)
    requires
        i <= s@.len(),
    ensures
        j == skip_spaces(s@, i as int),
        i <= j <= s@.len(),
{
    proof {
        lemma_skip_spaces(s@, i as int);
    }
    let mut j = i;
    loop
        invariant
            i <= j <= s@.len(),
            skip_spaces(s@, i as int) == skip_spaces(s@, j as int),
        decreases s@.len() - j,
    {
        let n = space_len_at(s, j);
        if j >= s.len() || n == 0 {
            return j;
        }
        j = j + n;
    }
}

/// Drops whitespace characters from the end of `s[lo..e]`, as `str::trim_end` does.
pub fn trim_end(s: &[u8], lo: usize, e: usize) -> (r: usize)
    requires
        lo <= e <= s@.len(),
    ensures
        r == trim_back(s@, lo as int, e as int),
        lo <= r <= e,
{
    proof {
        lemma_trim_back(s@, lo as int, e as int);
    }
    let mut r = e;
    loop
        invariant
            lo <= r <= e <= s@.len(),
            trim_back(s@, lo as int, e as int) == trim_back(s@, lo as int, r as int),
        decreases r - lo,
    {
        let n = space_len_before(s, r);
        if !(lo < r && n > 0 && r - n >= lo) {
            return r;
        }
        r = r - n;
    }
}

/// `b` with ASCII upper case letters mapped to lower case.
pub open spec fn lower_byte(b: u8) -> u8 {
    if 0x41 <= b && b <= 0x5a {
        (b + 0x20) as u8
    } else {
        b
    }
}

/// `b` with ASCII lower case letters mapped to upper case.
pub open spec fn upper_byte(b: u8) -> u8 {
    if 0x61 <= b && b <= 0x7a {
        (b - 0x20) as u8
    } else {
        b
    }
}

/// `s` in ASCII lower case.
pub open spec fn lower(s: Seq<u8>) -> Seq<u8> {
    s.map_values(|c: u8| lower_byte(c))
}

/// `s` in ASCII upper case.
pub open spec fn upper(s: Seq<u8>) -> Seq<u8> {
    s.map_values(|c: u8| upper_byte(c))
}

/// `s[a..b]` in ASCII lower case, as `str::to_ascii_lowercase` maps it.
pub fn lowercase(s: &[u8], a: usize, b: usize) -> (r: Vec<u8>)
    requires
        a <= b <= s@.len(),
    ensures
        r@ == lower(s@.subrange(a as int, b as int)),
{
    let mut r: Vec<u8> = Vec::new();
    let mut i = a;
    while i < b
        invariant
            a <= i <= b <= s@.len(),
            r@ == lower(s@.subrange(a as int, i as int)),
        decreases b - i,
    {
        let c = s[i];
        r.push(if 0x41 <= c && c <= 0x5a { c + 0x20 } else { c });
        i += 1;
        assert(s@.subrange(a as int, i as int) =~= s@.subrange(a as int, i - 1).push(c));
        assert(r@ =~= lower(s@.subrange(a as int, i as int)));
    }
    r
}

/// `s[a..b]` in ASCII upper case, as `str::to_ascii_uppercase` maps it.
pub fn uppercase(s: &[u8], a: usize, b: usize) -> (r: Vec<u8>)
    requires
        a <= b <= s@.len(),
    ensures
        r@ == upper(s@.subrange(a as int, b as int)),
{
    let mut r: Vec<u8> = Vec::new();
    let mut i = a;
    while i < b
        invariant
            a <= i <= b <= s@.len(),
            r@ == upper(s@.subrange(a as int, i as int)),
        decreases b - i,
    {
        let c = s[i];
        r.push(if 0x61 <= c && c <= 0x7a { c - 0x20 } else { c });
        i += 1;
        assert(s@.subrange(a as int, i as int) =~= s@.subrange(a as int, i - 1).push(c));
        assert(r@ =~= upper(s@.subrange(a as int, i as int)));
    }
    r
}

/// Copy of `s[a..b]`.
pub fn copy_range(s: &[u8], a: usize, b: usize) -> (r: Vec<u8>)
    requires
        a <= b <= s@.len(),
    ensures
        r@ == s@.subrange(a as int, b as int),
{
    let mut r: Vec<u8> = Vec::new();
    let mut i = a;
    while i < b
        invariant
            a <= i <= b <= s@.len(),
            r@ == s@.subrange(a as int, i as int),
        decreases b - i,
    {
        r.push(s[i]);
        i += 1;
        assert(s@.subrange(a as int, i as int) =~= s@.subrange(a as int, i - 1).push(s@[i - 1]));
    }
    r
}

/// Whether `pat` occurs in `s` at `i`.
pub open spec fn occurs_at(s: Seq<u8>, i: int, pat: Seq<u8>) -> bool {
    0 <= i && i + pat.len() <= s.len() && s.subrange(i, i + pat.len()) == pat
}

/// Whether `pat` occurs in `s` at `i`.
pub fn bytes_at(s: &[u8], i: usize, pat: &[u8]) -> (r: bool)
    ensures
        r == occurs_at(s@, i as int, pat@),
{
    if i > s.len() || pat.len() > s.len() - i {
        return false;
    }
    let mut k: usize = 0;
    while k < pat.len()
        invariant
            i + pat@.len() <= s@.len(),
            i <= s@.len(),
            0 <= k <= pat@.len(),
            forall|m: int| 0 <= m < k ==> s@[i + m] == pat@[m],
        decreases pat@.len() - k,
    {
        let len = s.len();
        assert(i + k < len);
        if s[i + k] != pat[k] {
            assert(s@.subrange(i as int, i + pat@.len())[k as int] != pat@[k as int]);
            return false;
        }
        k += 1;
    }
    assert(s@.subrange(i as int, i + pat@.len()) =~= pat@);
    true
}

/// First position in `from..` where `pat` occurs within `s[..to]`.
pub open spec fn find_from(s: Seq<u8>, from: int, to: int, pat: Seq<u8>) -> Option<int>
    decreases to + 1 - from,
{
    if from < 0 || from + pat.len() > to {
        None
    } else if occurs_at(s, from, pat) {
        Some(from)
    } else {
        find_from(s, from + 1, to, pat)
    }
}

/// First position in `from..to` where `pat` occurs entirely inside `s[from..to]`, as
/// `str::find` on that range reports it (offset by `from`).
pub fn find(s: &[u8], from: usize, to: usize, pat: &[u8]) -> (r: Option<usize>)
    requires
        from <= to <= s@.len(),
    ensures
        r matches Some(i) ==> find_from(s@, from as int, to as int, pat@) == Some(i as int) && from
            <= i && i + pat@.len() <= to,
        r is None ==> find_from(s@, from as int, to as int, pat@) is None,
{
    let mut i = from;
    loop
        invariant
            from <= i <= to,
            to <= s@.len(),
            find_from(s@, from as int, to as int, pat@) == find_from(s@, i as int, to as int, pat@),
        decreases to - i,
    {
        if pat.len() > to - i {
            return None;
        }
        if bytes_at(s, i, pat) {
            return Some(i);
        }
        if i == to {
            assert(find_from(s@, i + 1, to as int, pat@) == None::<int>);
            return None;
        }
        i += 1;
    }
}

/// First position in `from..to` that holds `b`.
pub open spec fn first_byte(s: Seq<u8>, from: int, to: int, b: u8) -> Option<int>
    decreases to - from,
{
    if from < 0 || from >= to || from >= s.len() {
        None
    } else if s[from] == b {
        Some(from)
    } else {
        first_byte(s, from + 1, to, b)
    }
}

pub proof fn lemma_first_byte(s: Seq<u8>, from: int, to: int, b: u8)
    requires
        0 <= from <= to <= s.len(),
    ensures
        first_byte(s, from, to, b) matches Some(i) ==> from <= i < to && s[i] == b && forall|
            k: int,
        | from <= k < i ==> s[k] != b,
        first_byte(s, from, to, b) is None ==> forall|k: int| from <= k < to ==> s[k] != b,
    decreases to - from,
{
    if from < to && s[from] != b {
        lemma_first_byte(s, from + 1, to, b);
    }
}

/// First position in `from..to` that holds `b`, as `str::find` with a character.
pub fn find_byte(s: &[u8], from: usize, to: usize, b: u8) -> (r: Option<usize>)
    requires
        from <= to <= s@.len(),
    ensures
        r matches Some(i) ==> first_byte(s@, from as int, to as int, b) == Some(i as int) && from
            <= i < to && s@[i as int] == b,
        r is None ==> first_byte(s@, from as int, to as int, b) is None,
{
    proof {
        lemma_first_byte(s@, from as int, to as int, b);
    }
    let mut i = from;
    while i < to
        invariant
            from <= i <= to <= s@.len(),
            first_byte(s@, from as int, to as int, b) == first_byte(s@, i as int, to as int, b),
        decreases to - i,
    {
        if s[i] == b {
            return Some(i);
        }
        i += 1;
    }
    None
}

/// Whether `a` and `b` hold the same bytes.
pub fn same_bytes(a: &[u8], b: &[u8]) -> (r: bool)
    ensures
        r == (a@ == b@),
{
    if a.len() != b.len() {
        return false;
    }
    let r = bytes_at(a, 0, b);
    assert(a@.subrange(0, b@.len() as int) =~= a@);
    r
}

} // verus!
