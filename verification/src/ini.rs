//! The configuration text's line grammar, and the per-field parse errors.
//!
//! A line, once trimmed of surrounding whitespace, is blank (empty or a `#`
//! comment), a `[section]` header, or a `key = value` pair whose key is
//! trimmed at its end and whose value, when the `=` is present at all, is
//! trimmed at its start. The reading of the file itself is left to the
//! caller; this module classifies one line of it at a time.

use vstd::prelude::*;
use vstd::slice::{slice_subrange, slice_to_vec};

verus! {

/// A configuration field that could not be read: either its value was
/// missing, or it would not parse.
#[derive(Debug, Clone, Copy)]
pub struct FieldParseError {
    pub field: &'static str,
    pub missing: bool,
}

impl FieldParseError {
    /// The field's raw value, or the error naming the field as missing.
    pub fn parse<'a>(s: Option<&'a str>, field: &'static str) -> (r: Result<
        &'a str,
        FieldParseError,
    >)
        ensures
            s matches Some(v) ==> (r matches Ok(w) && w == v),
            s is None ==> (r matches Err(e) && e.field@ == field@ && e.missing),
    {
        match s {
            Some(v) => Ok(v),
            None => Err(FieldParseError { field, missing: true }),
        }
    }

    /// A value parse failure for this field: names the field and marks the
    /// value as present but malformed.
    pub fn malformed(field: &'static str) -> (r: FieldParseError)
        ensures
            r.field@ == field@,
            !r.missing,
    {
        FieldParseError { field, missing: false }
    }
}

/// The whitespace the line grammar strips: ASCII space and the control
/// characters tab through carriage return.
pub open spec fn is_ascii_space(c: u8) -> bool {
    c == 32 || 9 <= c <= 13
}

/// The sequence with its leading whitespace removed.
pub open spec fn trim_start_spec(s: Seq<u8>) -> Seq<u8>
    decreases s.len(),
{
    if s.len() > 0 && is_ascii_space(s[0]) {
        trim_start_spec(s.drop_first())
    } else {
        s
    }
}

/// The sequence with its trailing whitespace removed.
pub open spec fn trim_end_spec(s: Seq<u8>) -> Seq<u8>
    decreases s.len(),
{
    if s.len() > 0 && is_ascii_space(s.last()) {
        trim_end_spec(s.drop_last())
    } else {
        s
    }
}

/// The sequence with whitespace removed at both ends.
pub open spec fn trim_spec(s: Seq<u8>) -> Seq<u8> {
    trim_end_spec(trim_start_spec(s))
}

/// The index of the first `=` in the sequence; its length when there is none.
pub open spec fn eq_split(s: Seq<u8>) -> nat
    decreases s.len(),
{
    if s.len() == 0 {
        0
    } else if s[0] == 61 {
        0
    } else {
        1 + eq_split(s.drop_first())
    }
}

/// How a line body (already trimmed at both ends) splits into a pair: at the
/// first `=` when there is one — key trimmed at its end, value at its start —
/// and otherwise the whole body as a valueless key.
pub open spec fn spec_split_pair(s: Seq<u8>) -> (Seq<u8>, Option<Seq<u8>>) {
    let k = eq_split(s);
    if k == s.len() {
        (trim_end_spec(s), None)
    } else {
        (trim_end_spec(s.take(k as int)), Some(trim_start_spec(s.skip(k + 1 as int))))
    }
}

/// One classified line of the configuration text.
#[derive(Debug, Clone, PartialEq, Eq)]
pub enum IniLine {
    /// Empty, whitespace only, or a `#` comment.
    Blank,
    /// `[name]`: starts a section.
    Section(Vec<u8>),
    /// A `key = value` pair, or a bare key without `=`.
    Pair(Vec<u8>, Option<Vec<u8>>),
}

proof fn lemma_trim_start_at(s: Seq<u8>, lo: int)
    requires
        0 <= lo <= s.len(),
        forall|j: int| 0 <= j < lo ==> is_ascii_space(#[trigger] s[j]),
        lo < s.len() ==> !is_ascii_space(s[lo]),
    ensures
        trim_start_spec(s) == s.subrange(lo, s.len() as int),
    decreases lo,
{
    if lo == 0 {
        assert(s =~= s.subrange(0, s.len() as int));
    } else {
        lemma_trim_start_at(s.drop_first(), lo - 1);
        assert(s.drop_first().subrange(lo - 1, s.drop_first().len() as int) =~= s.subrange(
            lo,
            s.len() as int,
        ));
    }
}

proof fn lemma_trim_end_at(s: Seq<u8>, hi: int)
    requires
        0 <= hi <= s.len(),
        forall|j: int| hi <= j < s.len() ==> is_ascii_space(#[trigger] s[j]),
        hi > 0 ==> !is_ascii_space(s[hi - 1]),
    ensures
        trim_end_spec(s) == s.take(hi),
    decreases s.len(),
{
    if hi == s.len() {
        assert(s =~= s.take(hi));
    } else {
        lemma_trim_end_at(s.drop_last(), hi);
        assert(s.drop_last().take(hi) =~= s.take(hi));
    }
}

proof fn lemma_eq_split_at(s: Seq<u8>, k: int)
    requires
        0 <= k <= s.len(),
        forall|j: int| 0 <= j < k ==> #[trigger] s[j] != 61,
        k < s.len() ==> s[k] == 61,
    ensures
        eq_split(s) == k,
    decreases s.len(),
{
    if k > 0 {
        lemma_eq_split_at(s.drop_first(), k - 1);
    }
}

/// Whether byte `i` of `s` is grammar whitespace.
fn space_at(s: &[u8], i: usize) -> (r: bool)
    requires
        i < s@.len(),
    ensures
        r == is_ascii_space(s@[i as int]),
{
    let c = s[i];
    c == 32 || (9 <= c && c <= 13)
}

/// The slice with whitespace removed at both ends.
pub fn trim(line: &[u8]) -> (r: &[u8])
    ensures
        r@ == trim_spec(line@),
{
    let mut lo: usize = 0;
    while lo < line.len() && space_at(line, lo)
        invariant
            lo <= line@.len(),
            forall|j: int| 0 <= j < lo ==> is_ascii_space(#[trigger] line@[j]),
        decreases line@.len() - lo,
    {
        lo = lo + 1;
    }
    let mut hi: usize = line.len();
    while hi > lo && space_at(line, hi - 1)
        invariant
            lo <= hi <= line@.len(),
            forall|j: int| hi <= j < line@.len() ==> is_ascii_space(#[trigger] line@[j]),
        decreases hi,
    {
        hi = hi - 1;
    }
    proof {
        lemma_trim_start_at(line@, lo as int);
        let t1 = line@.subrange(lo as int, line@.len() as int);
        lemma_trim_end_at(t1, hi - lo);
        assert(t1.take(hi - lo) =~= line@.subrange(lo as int, hi as int));
    }
    slice_subrange(line, lo, hi)
}

/// The slice with trailing whitespace removed.
fn trim_end(line: &[u8]) -> (r: &[u8])
    ensures
        r@ == trim_end_spec(line@),
{
    let mut hi: usize = line.len();
    while hi > 0 && space_at(line, hi - 1)
        invariant
            hi <= line@.len(),
            forall|j: int| hi <= j < line@.len() ==> is_ascii_space(#[trigger] line@[j]),
        decreases hi,
    {
        hi = hi - 1;
    }
    proof {
        lemma_trim_end_at(line@, hi as int);
        assert(line@.take(hi as int) =~= line@.subrange(0, hi as int));
    }
    slice_subrange(line, 0, hi)
}

/// The slice with leading whitespace removed.
fn trim_start(line: &[u8]) -> (r: &[u8])
    ensures
        r@ == trim_start_spec(line@),
{
    let mut lo: usize = 0;
    while lo < line.len() && space_at(line, lo)
        invariant
            lo <= line@.len(),
            forall|j: int| 0 <= j < lo ==> is_ascii_space(#[trigger] line@[j]),
        decreases line@.len() - lo,
    {
        lo = lo + 1;
    }
    proof {
        lemma_trim_start_at(line@, lo as int);
    }
    slice_subrange(line, lo, line.len())
}

/// The view of what `split_pair` hands back.
pub open spec fn pair_view(r: (Vec<u8>, Option<Vec<u8>>)) -> (Seq<u8>, Option<Seq<u8>>) {
    (
        r.0@,
        match r.1 {
            Option::Some(v) => Option::Some(v@),
            Option::None => Option::None,
        },
    )
}

/// Splits a line body at its first `=`, exactly as [`spec_split_pair`] says.
pub fn split_pair(line: &[u8]) -> (r: (Vec<u8>, Option<Vec<u8>>))
    ensures
        pair_view(r) == spec_split_pair(line@),
{
    let mut k: usize = 0;
    while k < line.len() && line[k] != 61
        invariant
            k <= line@.len(),
            forall|j: int| 0 <= j < k ==> #[trigger] line@[j] != 61,
        decreases line@.len() - k,
    {
        k = k + 1;
    }
    proof {
        lemma_eq_split_at(line@, k as int);
    }
    if k == line.len() {
        let key = slice_to_vec(trim_end(line));
        (key, None)
    } else {
        let key = slice_to_vec(trim_end(slice_subrange(line, 0, k)));
        let value = slice_to_vec(trim_start(slice_subrange(line, k + 1, line.len())));
        proof {
            assert(line@.subrange(0, k as int) =~= line@.take(k as int));
            assert(line@.subrange(k + 1, line@.len() as int) =~= line@.skip(k + 1));
        }
        (key, Some(value))
    }
}

/// Classifies one raw line: blank or comment, `[section]` header, or a
/// key/value pair split at the first `=`, all after trimming surrounding
/// whitespace as the grammar prescribes.
pub fn parse_line(line: &[u8]) -> (r: IniLine)
    ensures
        ({
            let t = trim_spec(line@);
            &&& (t.len() == 0 || t[0] == 35) <==> r is Blank
            &&& (t.len() > 0 && t[0] == 91 && t.last() == 93) <==> (r matches IniLine::Section(
                name,
            ) && name@ == t.subrange(1, t.len() - 1))
            &&& (t.len() > 0 && t[0] != 35 && !(t[0] == 91 && t.last() == 93)) <==> (r matches
            IniLine::Pair(key, value) && pair_view((key, value)) == spec_split_pair(t))
        }),
{
    let t = trim(line);
    if t.len() == 0 {
        return IniLine::Blank;
    }
    let c0 = t[0];
    if c0 == 35 {
        return IniLine::Blank;
    }
    if c0 == 91 && t[t.len() - 1] == 93 {
        let name = slice_to_vec(slice_subrange(t, 1, t.len() - 1));
        return IniLine::Section(name);
    }
    let (key, value) = split_pair(t);
    IniLine::Pair(key, value)
}

} // verus!
