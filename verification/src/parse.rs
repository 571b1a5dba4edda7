//! Parsing of editor-side position and range descriptors.
//!
//! The editor sends positions as `line.column` (both 1-based decimal
//! numbers) and selections as `anchor,cursor` pairs of such positions.

use vstd::prelude::*;

use crate::types::EditorPosition;
use crate::types::EditorRange;

verus! {

pub open spec fn is_ascii_digit(c: char) -> bool {
    48 <= c as u32 && c as u32 <= 57
}

pub open spec fn digit_val(c: char) -> int {
    c as u32 - 48
}

/// A non-empty run of decimal digits.
pub open spec fn all_digits(s: Seq<char>) -> bool {
    s.len() > 0 && forall|i: int| 0 <= i < s.len() ==> is_ascii_digit(#[trigger] s[i])
}

/// The decimal value of a digit run.
pub open spec fn dec_value(s: Seq<char>) -> int
    decreases s.len(),
{
    if s.len() == 0 {
        0
    } else {
        dec_value(s.drop_last()) * 10 + digit_val(s.last())
    }
}

/// The first index where `c` occurs in `s`, or the length of `s`.
pub open spec fn find_char(s: Seq<char>, c: char) -> int
    decreases s.len(),
{
    if s.len() == 0 {
        0
    } else if s[0] == c {
        0
    } else {
        1 + find_char(s.drop_first(), c)
    }
}

pub proof fn lemma_find_char(s: Seq<char>, c: char)
    ensures
        0 <= find_char(s, c) <= s.len(),
        find_char(s, c) < s.len() ==> s[find_char(s, c)] == c,
        forall|i: int| 0 <= i < find_char(s, c) ==> s[i] != c,
    decreases s.len(),
{
    if s.len() > 0 && s[0] != c {
        lemma_find_char(s.drop_first(), c);
        assert forall|i: int| 0 <= i < find_char(s, c) implies s[i] != c by {
            if i > 0 {
                assert(s.drop_first()[i - 1] == s[i]);
            }
        }
    }
}

/// `s` has the shape `digits '.' digits`, with both numbers below 2^32.
pub open spec fn valid_position_desc(s: Seq<char>) -> bool {
    let dot = find_char(s, '.');
    &&& dot < s.len()
    &&& all_digits(s.take(dot))
    &&& all_digits(s.skip(dot + 1))
    &&& dec_value(s.take(dot)) < 0x1_0000_0000
    &&& dec_value(s.skip(dot + 1)) < 0x1_0000_0000
}

/// The position a valid descriptor denotes.
pub open spec fn position_desc_value(s: Seq<char>) -> EditorPosition {
    let dot = find_char(s, '.');
    EditorPosition {
        line: dec_value(s.take(dot)) as u32,
        column: dec_value(s.skip(dot + 1)) as u32,
    }
}

/// `s` has the shape `pos ',' pos`.
pub open spec fn valid_range_desc(s: Seq<char>) -> bool {
    let comma = find_char(s, ',');
    &&& comma < s.len()
    &&& valid_position_desc(s.take(comma))
    &&& valid_position_desc(s.skip(comma + 1))
}

pub open spec fn spec_pos_before(a: EditorPosition, b: EditorPosition) -> bool {
    a.line < b.line || (a.line == b.line && a.column <= b.column)
}

/// The range a valid descriptor denotes, with its endpoints put in buffer
/// order.
pub open spec fn range_desc_value(s: Seq<char>) -> EditorRange {
    let comma = find_char(s, ',');
    let a = position_desc_value(s.take(comma));
    let b = position_desc_value(s.skip(comma + 1));
    if spec_pos_before(a, b) {
        EditorRange { start: a, end: b }
    } else {
        EditorRange { start: b, end: a }
    }
}

/// A digit run's value only grows as digits are appended.
proof fn lemma_dec_value_monotonic(s: Seq<char>, i: int)
    requires
        0 <= i <= s.len(),
        forall|j: int| 0 <= j < s.len() ==> is_ascii_digit(#[trigger] s[j]),
    ensures
        dec_value(s.take(i)) <= dec_value(s),
        dec_value(s) >= 0,
    decreases s.len() - i,
{
    if i == s.len() {
        assert(s.take(i) =~= s);
        lemma_dec_value_nonneg(s);
    } else {
        assert(s.take(i + 1).drop_last() =~= s.take(i));
        lemma_dec_value_nonneg(s.take(i));
        lemma_dec_value_monotonic(s, i + 1);
    }
}

proof fn lemma_dec_value_nonneg(s: Seq<char>)
    requires
        forall|j: int| 0 <= j < s.len() ==> is_ascii_digit(#[trigger] s[j]),
    ensures
        dec_value(s) >= 0,
    decreases s.len(),
{
    if s.len() > 0 {
        assert(s.drop_last() =~= s.take(s.len() - 1));
        lemma_dec_value_nonneg(s.drop_last());
    }
}

/// Parses a non-empty digit run below 2^32 out of `s`.
fn parse_u32(s: &Vec<char>) -> (r: Option<u32>)
    ensures
        r is Some <==> all_digits(s@) && dec_value(s@) < 0x1_0000_0000,
        r is Some ==> r->0 == dec_value(s@),
{
    if s.len() == 0 {
        return None;
    }
    let mut acc: u64 = 0;
    let mut i: usize = 0;
    proof {
        assert(s@.take(0) =~= Seq::<char>::empty());
    }
    while i < s.len()
        invariant
            i <= s@.len(),
            acc == dec_value(s@.take(i as int)),
            acc < 0x1_0000_0000,
            forall|j: int| 0 <= j < i ==> is_ascii_digit(#[trigger] s@[j]),
        decreases s@.len() - i,
    {
        let c = s[i];
        let u = c as u32;
        if u < 48 || u > 57 {
            return None;
        }
        let d: u64 = (u - 48) as u64;
        proof {
            assert(s@.take(i as int + 1).drop_last() =~= s@.take(i as int));
        }
        let next: u64 = acc * 10 + d;
        if next >= 0x1_0000_0000 {
            proof {
                assert(dec_value(s@.take(i as int + 1)) == next);
                if all_digits(s@) {
                    lemma_dec_value_monotonic(s@, i as int + 1);
                }
            }
            return None;
        }
        acc = next;
        i = i + 1;
    }
    proof {
        assert(s@.take(i as int) =~= s@);
    }
    Some(acc as u32)
}

/// Splits `s` at the first occurrence of `sep`; `None` when `sep` does not
/// occur.
fn split_once_char(s: &Vec<char>, sep: char) -> (r: Option<(Vec<char>, Vec<char>)>)
    ensures
        r is Some <==> find_char(s@, sep) < s@.len(),
        r is Some ==> (r->0).0@ == s@.take(find_char(s@, sep)) && (r->0).1@ == s@.skip(
            find_char(s@, sep) + 1,
        ),
{
    proof {
        lemma_find_char(s@, sep);
    }
    let mut i: usize = 0;
    while i < s.len()
        invariant
            i <= s@.len(),
            forall|j: int| 0 <= j < i ==> s@[j] != sep,
        decreases s@.len() - i,
    {
        if s[i] == sep {
            proof {
                lemma_find_char(s@, sep);
                assert(find_char(s@, sep) == i as int) by {
                    if find_char(s@, sep) < i as int {
                        assert(s@[find_char(s@, sep)] == sep);
                    }
                    if find_char(s@, sep) > i as int {
                        assert(s@[i as int] != sep);
                    }
                }
            }
            let mut before: Vec<char> = Vec::new();
            let mut j: usize = 0;
            while j < i
                invariant
                    j <= i,
                    i <= s@.len(),
                    before@ == s@.take(j as int),
                decreases i - j,
            {
                proof {
                    assert(s@.take(j as int + 1) =~= s@.take(j as int) + seq![s@[j as int]]);
                }
                before.push(s[j]);
                j = j + 1;
            }
            let mut after: Vec<char> = Vec::new();
            let mut k: usize = i + 1;
            while k < s.len()
                invariant
                    i < k <= s@.len() || (i as int + 1 == k as int && k as int <= s@.len()),
                    k >= i + 1,
                    k <= s@.len(),
                    after@ == s@.subrange(i as int + 1, k as int),
                decreases s@.len() - k,
            {
                proof {
                    assert(s@.subrange(i as int + 1, k as int + 1) =~= s@.subrange(
                        i as int + 1,
                        k as int,
                    ) + seq![s@[k as int]]);
                }
                after.push(s[k]);
                k = k + 1;
            }
            proof {
                assert(after@ =~= s@.skip(i as int + 1));
            }
            return Some((before, after));
        }
        i = i + 1;
    }
    proof {
        lemma_find_char(s@, sep);
        if find_char(s@, sep) < s@.len() {
            assert(s@[find_char(s@, sep)] == sep);
        }
    }
    None
}

/// Parses a `line.column` descriptor.
pub fn parse_kakoune_position(s: &str) -> (r: Option<EditorPosition>)
    ensures
        r is Some <==> valid_position_desc(s@),
        r is Some ==> r->0 == position_desc_value(s@),
{
    let cs = crate::strutil::str_chars(s);
    parse_position_chars(&cs)
}

fn parse_position_chars(cs: &Vec<char>) -> (r: Option<EditorPosition>)
    ensures
        r is Some <==> valid_position_desc(cs@),
        r is Some ==> r->0 == position_desc_value(cs@),
{
    match split_once_char(cs, '.') {
        None => None,
        Some((before, after)) => {
            let line = parse_u32(&before);
            let column = parse_u32(&after);
            match (line, column) {
                (Some(l), Some(c)) => Some(EditorPosition { line: l, column: c }),
                _ => None,
            }
        },
    }
}

/// Parses an `anchor,cursor` selection descriptor into a buffer-ordered
/// range.
pub fn parse_kakoune_range(s: &str) -> (r: Option<EditorRange>)
    ensures
        r is Some <==> valid_range_desc(s@),
        r is Some ==> r->0 == range_desc_value(s@),
{
    let cs = crate::strutil::str_chars(s);
    match split_once_char(&cs, ',') {
        None => None,
        Some((before, after)) => {
            let a = parse_position_chars(&before);
            let b = parse_position_chars(&after);
            match (a, b) {
                (Some(a), Some(b)) => {
                    if a.line < b.line || (a.line == b.line && a.column <= b.column) {
                        Some(EditorRange { start: a, end: b })
                    } else {
                        Some(EditorRange { start: b, end: a })
                    }
                },
                _ => None,
            }
        },
    }
}

} // verus!
