//! Fixed-position column extraction with whitespace trimming.

use vstd::prelude::*;

verus! {

/// The whitespace characters that trimming removes.
pub open spec fn spec_is_space(c: char) -> bool {
    c == ' ' || c == '\t' || c == '\n' || c == '\r' || c == '\x0B' || c == '\x0C'
}

/// The characters of `line` at positions `offset .. offset + len`, cut short
/// where the line ends.
pub open spec fn spec_window(line: Seq<char>, offset: int, len: int) -> Seq<char> {
    let lo = if offset < line.len() { offset } else { line.len() as int };
    let hi = if offset + len < line.len() { offset + len } else { line.len() as int };
    line.subrange(lo, hi)
}

pub open spec fn spec_trim_start(s: Seq<char>) -> Seq<char>
    decreases s.len(),
{
    if s.len() > 0 && spec_is_space(s[0]) {
        spec_trim_start(s.drop_first())
    } else {
        s
    }
}

pub open spec fn spec_trim_end(s: Seq<char>) -> Seq<char>
    decreases s.len(),
{
    if s.len() > 0 && spec_is_space(s.last()) {
        spec_trim_end(s.drop_last())
    } else {
        s
    }
}

pub open spec fn spec_trim(s: Seq<char>) -> Seq<char> {
    spec_trim_end(spec_trim_start(s))
}

/// The trimmed text of a column.
pub open spec fn spec_column(line: Seq<char>, offset: int, len: int) -> Seq<char> {
    spec_trim(spec_window(line, offset, len))
}

pub fn is_space(c: char) -> (r: bool)
    ensures
        r == spec_is_space(c),
{
    c == ' ' || c == '\t' || c == '\n' || c == '\r' || c == '\x0B' || c == '\x0C'
}

/// Extracts the `len` characters at `offset` (fewer, possibly none, where the
/// line is shorter) and trims surrounding whitespace.
pub fn column_text(line: &Vec<char>, offset: usize, len: usize) -> (r: Vec<char>)
    requires
        offset + len <= usize::MAX,
    ensures
        r@ == spec_column(line@, offset as int, len as int),
{
    let n = line.len();
    let lo = if offset < n { offset } else { n };
    let hi = if offset + len < n { offset + len } else { n };
    let ghost w = line@.subrange(lo as int, hi as int);
    assert(w == spec_window(line@, offset as int, len as int));
    let mut i = lo;
    while i < hi && is_space(line[i])
        invariant
            lo <= i <= hi <= n == line@.len(),
            w == line@.subrange(lo as int, hi as int),
            spec_trim_start(w) == spec_trim_start(line@.subrange(i as int, hi as int)),
        decreases hi - i,
    {
        assert(line@.subrange(i as int, hi as int).drop_first() =~= line@.subrange(
            i + 1,
            hi as int,
        ));
        i = i + 1;
    }
    let ghost t = line@.subrange(i as int, hi as int);
    assert(spec_trim_start(w) == t);
    let mut j = hi;
    while j > i && is_space(line[j - 1])
        invariant
            i <= j <= hi <= n == line@.len(),
            t == line@.subrange(i as int, hi as int),
            spec_trim_end(t) == spec_trim_end(line@.subrange(i as int, j as int)),
        decreases j - i,
    {
        assert(line@.subrange(i as int, j as int).drop_last() =~= line@.subrange(
            i as int,
            j - 1,
        ));
        j = j - 1;
    }
    let mut r: Vec<char> = Vec::new();
    let mut k = i;
    while k < j
        invariant
            i <= k <= j <= n == line@.len(),
            r@ == line@.subrange(i as int, k as int),
        decreases j - k,
    {
        r.push(line[k]);
        assert(r@ =~= line@.subrange(i as int, k + 1));
        k = k + 1;
    }
    assert(r@ =~= line@.subrange(i as int, j as int));
    r
}

/// The character at `pos`, or a space where the line is shorter.
pub fn char_at_or_space(line: &Vec<char>, pos: usize) -> (r: char)
    ensures
        r == (if pos < line@.len() { line@[pos as int] } else { ' ' }),
{
    if pos < line.len() {
        line[pos]
    } else {
        ' '
    }
}

} // verus!
