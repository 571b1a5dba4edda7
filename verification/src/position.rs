//! Translation between editor positions and LSP positions.
//!
//! An LSP position counts `character` in code units of the owning server's
//! offset encoding; the editor wants 1-based lines and 1-based byte
//! columns. The translations walk a line's characters, summing UTF-8 byte
//! widths on one side and code units on the other; positions inside a
//! character clamp down to the nearest boundary, and columns past the end
//! of the line clamp to its byte length.

use vstd::prelude::*;

use crate::types::EditorPosition;
use crate::types::EditorRange;
use crate::types::LspPosition;
use crate::types::LspRange;
use crate::types::OffsetEncoding;

verus! {

/// Width of `c` in UTF-8 bytes.
pub open spec fn char_utf8_len(c: char) -> int {
    if (c as u32) < 0x80 {
        1
    } else if (c as u32) < 0x800 {
        2
    } else if (c as u32) < 0x10000 {
        3
    } else {
        4
    }
}

/// Width of `c` in code units of `enc`.
pub open spec fn char_units(c: char, enc: OffsetEncoding) -> int {
    match enc {
        OffsetEncoding::Utf8 => char_utf8_len(c),
        OffsetEncoding::Utf16 => if (c as u32) < 0x10000 {
            1
        } else {
            2
        },
        OffsetEncoding::Utf32 => 1,
    }
}

/// Total UTF-8 byte length of `s`.
pub open spec fn byte_length(s: Seq<char>) -> int
    decreases s.len(),
{
    if s.len() == 0 {
        0
    } else {
        char_utf8_len(s[0]) + byte_length(s.drop_first())
    }
}

/// Total length of `s` in code units of `enc`.
pub open spec fn unit_length(s: Seq<char>, enc: OffsetEncoding) -> int
    decreases s.len(),
{
    if s.len() == 0 {
        0
    } else {
        char_units(s[0], enc) + unit_length(s.drop_first(), enc)
    }
}

/// Byte offset of the code-unit boundary `units` in `s`; offsets inside a
/// character or past the end clamp down.
pub open spec fn units_to_bytes(s: Seq<char>, units: int, enc: OffsetEncoding) -> int
    decreases s.len(),
{
    if s.len() == 0 {
        0
    } else if char_units(s[0], enc) <= units {
        char_utf8_len(s[0]) + units_to_bytes(s.drop_first(), units - char_units(s[0], enc), enc)
    } else {
        0
    }
}

/// Code-unit offset of the byte boundary `bytes` in `s`; offsets inside a
/// character or past the end clamp down.
pub open spec fn bytes_to_units(s: Seq<char>, bytes: int, enc: OffsetEncoding) -> int
    decreases s.len(),
{
    if s.len() == 0 {
        0
    } else if char_utf8_len(s[0]) <= bytes {
        char_units(s[0], enc) + bytes_to_units(s.drop_first(), bytes - char_utf8_len(s[0]), enc)
    } else {
        0
    }
}

/// `units` lies on a character boundary of `s` under `enc`.
pub open spec fn is_unit_boundary(s: Seq<char>, units: int, enc: OffsetEncoding) -> bool {
    exists|k: int| 0 <= k <= s.len() && units == unit_length(#[trigger] s.take(k), enc)
}

pub proof fn lemma_byte_length_nonneg(s: Seq<char>)
    ensures
        byte_length(s) >= 0,
    decreases s.len(),
{
    if s.len() > 0 {
        lemma_byte_length_nonneg(s.drop_first());
    }
}

pub proof fn lemma_unit_length_nonneg(s: Seq<char>, enc: OffsetEncoding)
    ensures
        unit_length(s, enc) >= 0,
    decreases s.len(),
{
    if s.len() > 0 {
        lemma_unit_length_nonneg(s.drop_first(), enc);
    }
}

pub proof fn lemma_byte_length_singleton(c: char)
    ensures
        byte_length(seq![c]) == char_utf8_len(c),
{
    assert(seq![c][0] == c);
    assert(seq![c].drop_first() =~= Seq::<char>::empty());
    assert(byte_length(Seq::<char>::empty()) == 0);
}

pub proof fn lemma_unit_length_singleton(c: char, enc: OffsetEncoding)
    ensures
        unit_length(seq![c], enc) == char_units(c, enc),
{
    assert(seq![c][0] == c);
    assert(seq![c].drop_first() =~= Seq::<char>::empty());
    assert(unit_length(Seq::<char>::empty(), enc) == 0);
}

/// Byte length distributes over concatenation.
pub proof fn lemma_byte_length_concat(a: Seq<char>, b: Seq<char>)
    ensures
        byte_length(a + b) == byte_length(a) + byte_length(b),
    decreases a.len(),
{
    if a.len() == 0 {
        assert(a + b =~= b);
    } else {
        assert((a + b).drop_first() =~= a.drop_first() + b);
        lemma_byte_length_concat(a.drop_first(), b);
    }
}

/// Unit length distributes over concatenation.
pub proof fn lemma_unit_length_concat(a: Seq<char>, b: Seq<char>, enc: OffsetEncoding)
    ensures
        unit_length(a + b, enc) == unit_length(a, enc) + unit_length(b, enc),
    decreases a.len(),
{
    if a.len() == 0 {
        assert(a + b =~= b);
    } else {
        assert((a + b).drop_first() =~= a.drop_first() + b);
        lemma_unit_length_concat(a.drop_first(), b, enc);
    }
}

/// A walk never yields a negative offset, and never runs past the line.
pub proof fn lemma_units_to_bytes_bounds(s: Seq<char>, units: int, enc: OffsetEncoding)
    ensures
        0 <= units_to_bytes(s, units, enc) <= byte_length(s),
    decreases s.len(),
{
    lemma_byte_length_nonneg(s);
    if s.len() > 0 {
        lemma_units_to_bytes_bounds(s.drop_first(), units - char_units(s[0], enc), enc);
        lemma_byte_length_nonneg(s.drop_first());
    }
}

pub proof fn lemma_bytes_to_units_bounds(s: Seq<char>, bytes: int, enc: OffsetEncoding)
    ensures
        0 <= bytes_to_units(s, bytes, enc) <= unit_length(s, enc),
    decreases s.len(),
{
    lemma_unit_length_nonneg(s, enc);
    if s.len() > 0 {
        lemma_bytes_to_units_bounds(s.drop_first(), bytes - char_utf8_len(s[0]), enc);
        lemma_unit_length_nonneg(s.drop_first(), enc);
    }
}

/// Each character is at least as wide in UTF-8 bytes as in code units.
pub proof fn lemma_unit_le_byte_length(s: Seq<char>, enc: OffsetEncoding)
    ensures
        unit_length(s, enc) <= byte_length(s),
    decreases s.len(),
{
    if s.len() > 0 {
        lemma_unit_le_byte_length(s.drop_first(), enc);
    }
}

/// Round trip: translating a code-unit boundary to a byte offset and back
/// returns the same boundary.
pub proof fn lemma_units_bytes_round_trip(s: Seq<char>, units: int, enc: OffsetEncoding)
    requires
        is_unit_boundary(s, units, enc),
    ensures
        bytes_to_units(s, units_to_bytes(s, units, enc), enc) == units,
    decreases s.len(),
{
    let k = choose|k: int| 0 <= k <= s.len() && units == unit_length(#[trigger] s.take(k), enc);
    if k == 0 {
        assert(s.take(0) =~= Seq::<char>::empty());
        assert(units == 0);
    } else {
        assert(s.take(k)[0] == s[0]);
        assert(s.take(k).drop_first() =~= s.drop_first().take(k - 1));
        lemma_unit_length_nonneg(s.drop_first().take(k - 1), enc);
        assert(units == char_units(s[0], enc) + unit_length(s.drop_first().take(k - 1), enc));
        let units2 = units - char_units(s[0], enc);
        assert(is_unit_boundary(s.drop_first(), units2, enc)) by {
            assert(0 <= k - 1 <= s.drop_first().len());
            assert(units2 == unit_length(s.drop_first().take(k - 1), enc));
        }
        lemma_units_bytes_round_trip(s.drop_first(), units2, enc);
        lemma_units_to_bytes_bounds(s.drop_first(), units2, enc);
    }
}

/// The characters of line `n`, or the empty sequence when `n` is out of
/// range.
pub open spec fn line_at(lines: Seq<Vec<char>>, n: int) -> Seq<char> {
    if 0 <= n < lines.len() {
        lines[n]@
    } else {
        Seq::empty()
    }
}

/// Every line's byte length leaves room for a 1-based u32 byte column.
pub open spec fn lines_fit(lines: Seq<Vec<char>>) -> bool {
    forall|i: int| 0 <= i < lines.len() ==> byte_length(#[trigger] lines[i]@) < 0xffff_ffff
}

/// Width of `c` in UTF-8 bytes.
pub fn char_utf8_len_exec(c: char) -> (r: u32)
    ensures
        r == char_utf8_len(c),
{
    let u = c as u32;
    if u < 0x80 {
        1
    } else if u < 0x800 {
        2
    } else if u < 0x10000 {
        3
    } else {
        4
    }
}

/// Width of `c` in code units of `enc`.
pub fn char_units_exec(c: char, enc: OffsetEncoding) -> (r: u32)
    ensures
        r == char_units(c, enc),
{
    match enc {
        OffsetEncoding::Utf8 => char_utf8_len_exec(c),
        OffsetEncoding::Utf16 => if (c as u32) < 0x10000 {
            1
        } else {
            2
        },
        OffsetEncoding::Utf32 => 1,
    }
}

/// Byte length of a line.
pub fn line_byte_length(line: &Vec<char>) -> (r: u32)
    requires
        byte_length(line@) < 0xffff_ffff,
    ensures
        r == byte_length(line@),
{
    let mut acc: u32 = 0;
    let mut i: usize = 0;
    proof {
        assert(line@.take(0) =~= Seq::<char>::empty());
    }
    while i < line.len()
        invariant
            i <= line@.len(),
            acc == byte_length(line@.take(i as int)),
            byte_length(line@) < 0xffff_ffff,
        decreases line@.len() - i,
    {
        proof {
            assert(line@.take(i as int + 1) =~= line@.take(i as int) + seq![line@[i as int]]);
            lemma_byte_length_concat(line@.take(i as int), seq![line@[i as int]]);
            lemma_byte_length_singleton(line@[i as int]);
            assert(line@ =~= line@.take(i as int + 1) + line@.skip(i as int + 1));
            lemma_byte_length_concat(line@.take(i as int + 1), line@.skip(i as int + 1));
            lemma_byte_length_nonneg(line@.skip(i as int + 1));
        }
        let w = char_utf8_len_exec(line[i]);
        acc = acc + w;
        i = i + 1;
    }
    proof {
        assert(line@.take(i as int) =~= line@);
    }
    acc
}

/// Byte offset of the code-unit boundary `units` within `line`, clamping
/// into the line.
pub fn units_to_bytes_exec(line: &Vec<char>, units: u32, enc: OffsetEncoding) -> (r: u32)
    requires
        byte_length(line@) < 0xffff_ffff,
    ensures
        r == units_to_bytes(line@, units as int, enc),
{
    let mut bytes: u32 = 0;
    let mut rem: u32 = units;
    let mut i: usize = 0;
    proof {
        assert(line@.skip(0) =~= line@);
        assert(line@.take(0) =~= Seq::<char>::empty());
    }
    while i < line.len()
        invariant
            i <= line@.len(),
            bytes == byte_length(line@.take(i as int)),
            rem <= units,
            byte_length(line@) < 0xffff_ffff,
            units_to_bytes(line@, units as int, enc) == bytes + units_to_bytes(
                line@.skip(i as int),
                rem as int,
                enc,
            ),
        decreases line@.len() - i,
    {
        let c = line[i];
        let cu = char_units_exec(c, enc);
        proof {
            assert(line@.skip(i as int)[0] == line@[i as int]);
            assert(line@.skip(i as int).drop_first() =~= line@.skip(i as int + 1));
            assert(line@.take(i as int + 1) =~= line@.take(i as int) + seq![line@[i as int]]);
            lemma_byte_length_concat(line@.take(i as int), seq![line@[i as int]]);
            lemma_byte_length_singleton(line@[i as int]);
            assert(line@ =~= line@.take(i as int + 1) + line@.skip(i as int + 1));
            lemma_byte_length_concat(line@.take(i as int + 1), line@.skip(i as int + 1));
            lemma_byte_length_nonneg(line@.skip(i as int + 1));
        }
        if cu <= rem {
            let w = char_utf8_len_exec(c);
            bytes = bytes + w;
            rem = rem - cu;
            i = i + 1;
        } else {
            proof {
                assert(units_to_bytes(line@.skip(i as int), rem as int, enc) == 0);
            }
            return bytes;
        }
    }
    proof {
        assert(line@.skip(i as int).len() == 0);
    }
    bytes
}

/// Code-unit offset of the byte boundary `bytes` within `line`, clamping
/// into the line.
pub fn bytes_to_units_exec(line: &Vec<char>, bytes: u32, enc: OffsetEncoding) -> (r: u32)
    requires
        byte_length(line@) < 0xffff_ffff,
    ensures
        r == bytes_to_units(line@, bytes as int, enc),
{
    let mut units: u32 = 0;
    let mut rem: u32 = bytes;
    let mut i: usize = 0;
    proof {
        assert(line@.skip(0) =~= line@);
        assert(line@.take(0) =~= Seq::<char>::empty());
    }
    while i < line.len()
        invariant
            i <= line@.len(),
            units == unit_length(line@.take(i as int), enc),
            rem <= bytes,
            byte_length(line@) < 0xffff_ffff,
            bytes_to_units(line@, bytes as int, enc) == units + bytes_to_units(
                line@.skip(i as int),
                rem as int,
                enc,
            ),
        decreases line@.len() - i,
    {
        let c = line[i];
        let w = char_utf8_len_exec(c);
        proof {
            assert(line@.skip(i as int)[0] == line@[i as int]);
            assert(line@.skip(i as int).drop_first() =~= line@.skip(i as int + 1));
            assert(line@.take(i as int + 1) =~= line@.take(i as int) + seq![line@[i as int]]);
            lemma_unit_length_concat(line@.take(i as int), seq![line@[i as int]], enc);
            lemma_unit_length_singleton(line@[i as int], enc);
            assert(line@ =~= line@.take(i as int + 1) + line@.skip(i as int + 1));
            lemma_unit_length_concat(line@.take(i as int + 1), line@.skip(i as int + 1), enc);
            lemma_unit_length_nonneg(line@.skip(i as int + 1), enc);
            lemma_unit_le_byte_length(line@.take(i as int + 1), enc);
            lemma_byte_length_concat(line@.take(i as int + 1), line@.skip(i as int + 1));
            lemma_byte_length_nonneg(line@.skip(i as int + 1));
        }
        if w <= rem {
            let cu = char_units_exec(c, enc);
            units = units + cu;
            rem = rem - w;
            i = i + 1;
        } else {
            proof {
                assert(bytes_to_units(line@.skip(i as int), rem as int, enc) == 0);
            }
            return units;
        }
    }
    proof {
        assert(line@.skip(i as int).len() == 0);
    }
    units
}

/// The line `n` of `lines`, empty when out of range.
pub fn get_line<'a>(lines: &'a Vec<Vec<char>>, n: usize, empty: &'a Vec<char>) -> (r: &'a Vec<
    char,
>)
    requires
        empty@.len() == 0,
    ensures
        r@ == line_at(lines@, n as int),
{
    if n < lines.len() {
        &lines[n]
    } else {
        proof {
            assert(empty@ =~= Seq::<char>::empty());
        }
        empty
    }
}

/// Maps a 0-based LSP position under `enc` to a 1-based editor position
/// with a byte column.
pub fn lsp_position_to_editor(p: LspPosition, lines: &Vec<Vec<char>>, enc: OffsetEncoding) -> (r:
    EditorPosition)
    requires
        lines_fit(lines@),
        p.line < 0xffff_ffff,
    ensures
        r.line == p.line + 1,
        r.column == 1 + units_to_bytes(line_at(lines@, p.line as int), p.character as int, enc),
{
    let nline = p.line as usize;
    let column: u32 = if nline < lines.len() {
        let b = units_to_bytes_exec(&lines[nline], p.character, enc);
        proof {
            lemma_units_to_bytes_bounds(lines@[nline as int]@, p.character as int, enc);
        }
        1 + b
    } else {
        1
    };
    EditorPosition { line: p.line + 1, column }
}

/// Maps a 1-based editor position with a byte column to a 0-based LSP
/// position under `enc`.
pub fn editor_position_to_lsp(p: EditorPosition, lines: &Vec<Vec<char>>, enc: OffsetEncoding) -> (r:
    LspPosition)
    requires
        lines_fit(lines@),
        p.line >= 1,
        p.column >= 1,
    ensures
        r.line == p.line - 1,
        r.character == bytes_to_units(line_at(lines@, p.line - 1), p.column - 1, enc),
{
    let nline = (p.line - 1) as usize;
    let character: u32 = if nline < lines.len() {
        proof {
            lemma_bytes_to_units_bounds(lines@[nline as int]@, p.column - 1, enc);
            lemma_unit_le_byte_length(lines@[nline as int]@, enc);
        }
        bytes_to_units_exec(&lines[nline], p.column - 1, enc)
    } else {
        0
    };
    LspPosition { line: p.line - 1, character }
}

/// Applies the point translation to both endpoints.
pub fn lsp_range_to_editor(r: &LspRange, lines: &Vec<Vec<char>>, enc: OffsetEncoding) -> (res:
    EditorRange)
    requires
        lines_fit(lines@),
        r.start.line < 0xffff_ffff,
        r.end.line < 0xffff_ffff,
    ensures
        res.start == lsp_position_to_editor_spec(r.start, lines@, enc),
        res.end == lsp_position_to_editor_spec(r.end, lines@, enc),
{
    EditorRange {
        start: lsp_position_to_editor(r.start, lines, enc),
        end: lsp_position_to_editor(r.end, lines, enc),
    }
}

/// Applies the point translation to both endpoints.
pub fn editor_range_to_lsp(r: &EditorRange, lines: &Vec<Vec<char>>, enc: OffsetEncoding) -> (res:
    LspRange)
    requires
        lines_fit(lines@),
        r.start.line >= 1,
        r.start.column >= 1,
        r.end.line >= 1,
        r.end.column >= 1,
    ensures
        res.start == editor_position_to_lsp_spec(r.start, lines@, enc),
        res.end == editor_position_to_lsp_spec(r.end, lines@, enc),
{
    LspRange {
        start: editor_position_to_lsp(r.start, lines, enc),
        end: editor_position_to_lsp(r.end, lines, enc),
    }
}

/// The value `lsp_position_to_editor` returns.
pub open spec fn lsp_position_to_editor_spec(
    p: LspPosition,
    lines: Seq<Vec<char>>,
    enc: OffsetEncoding,
) -> EditorPosition {
    EditorPosition {
        line: (p.line + 1) as u32,
        column: (1 + units_to_bytes(line_at(lines, p.line as int), p.character as int, enc)) as u32,
    }
}

/// The value `editor_position_to_lsp` returns.
pub open spec fn editor_position_to_lsp_spec(
    p: EditorPosition,
    lines: Seq<Vec<char>>,
    enc: OffsetEncoding,
) -> LspPosition {
    LspPosition {
        line: (p.line - 1) as u32,
        character: bytes_to_units(line_at(lines, p.line - 1), p.column - 1, enc) as u32,
    }
}

/// Round trip at the position level: for a position on a code-point
/// boundary of a line of the document, translating to editor coordinates
/// and back is the identity.
pub proof fn lemma_position_round_trip(
    p: LspPosition,
    lines: Seq<Vec<char>>,
    enc: OffsetEncoding,
)
    requires
        lines_fit(lines),
        p.line < lines.len(),
        p.line < 0xffff_ffff,
        is_unit_boundary(line_at(lines, p.line as int), p.character as int, enc),
    ensures
        editor_position_to_lsp_spec(lsp_position_to_editor_spec(p, lines, enc), lines, enc) == p,
{
    let s = line_at(lines, p.line as int);
    lemma_units_to_bytes_bounds(s, p.character as int, enc);
    lemma_units_bytes_round_trip(s, p.character as int, enc);
    lemma_bytes_to_units_bounds(s, units_to_bytes(s, p.character as int, enc), enc);
    lemma_unit_le_byte_length(s, enc);
}

/// Every stored file text fits the editor's byte columns.
pub open spec fn files_fit(files: Seq<(String, Vec<Vec<char>>)>) -> bool {
    forall|i: int| 0 <= i < files.len() ==> lines_fit((#[trigger] files[i]).1@)
}

/// The editor position a location renders at: under `enc` when the
/// file's text is at hand, a best-effort 1-based fallback otherwise.
pub open spec fn spec_located_position(
    filename: Seq<char>,
    position: LspPosition,
    files: Seq<(String, Vec<Vec<char>>)>,
    enc: OffsetEncoding,
) -> EditorPosition {
    match crate::types::lookup_file(files, filename) {
        Option::Some(lines) => lsp_position_to_editor_spec(position, lines, enc),
        Option::None => EditorPosition {
            line: (position.line + 1) as u32,
            column: (position.character + 1) as u32,
        },
    }
}

/// An editor position rendered as `line.column`.
pub open spec fn spec_editor_position_fmt(p: EditorPosition) -> Seq<char> {
    crate::strutil::dec_digits(p.line as nat) + seq!['.'] + crate::strutil::dec_digits(
        p.column as nat,
    )
}

/// An editor range rendered as `start,end`.
pub open spec fn spec_editor_range_fmt(r: EditorRange) -> Seq<char> {
    spec_editor_position_fmt(r.start) + seq![','] + spec_editor_position_fmt(r.end)
}

/// Appends `line.column` to `out`.
pub fn push_editor_position(out: &mut Vec<char>, p: EditorPosition)
    ensures
        final(out)@ == old(out)@ + spec_editor_position_fmt(p),
{
    crate::strutil::push_u32(out, p.line);
    out.push('.');
    crate::strutil::push_u32(out, p.column);
    proof {
        assert(out@ =~= old(out)@ + spec_editor_position_fmt(p));
    }
}

/// Appends `start.line.start.column,end.line.end.column` to `out`.
pub fn push_editor_range(out: &mut Vec<char>, r: EditorRange)
    ensures
        final(out)@ == old(out)@ + spec_editor_range_fmt(r),
{
    push_editor_position(out, r.start);
    out.push(',');
    push_editor_position(out, r.end);
    proof {
        assert(out@ =~= old(out)@ + spec_editor_range_fmt(r));
    }
}

/// Two LSP ranges overlap: neither ends before the other starts.
pub open spec fn spec_pos_le(a: LspPosition, b: LspPosition) -> bool {
    a.line < b.line || (a.line == b.line && a.character <= b.character)
}

/// `a.start <= b.end` and `b.start <= a.end` in document order.
pub open spec fn spec_ranges_overlap(a: LspRange, b: LspRange) -> bool {
    spec_pos_le(a.start, b.end) && spec_pos_le(b.start, a.end)
}

/// `a <= b` in document order (line-major).
pub fn position_le(a: LspPosition, b: LspPosition) -> (r: bool)
    ensures
        r == spec_pos_le(a, b),
{
    a.line < b.line || (a.line == b.line && a.character <= b.character)
}

/// Whether two LSP ranges overlap.
pub fn ranges_overlap(a: LspRange, b: LspRange) -> (r: bool)
    ensures
        r == spec_ranges_overlap(a, b),
{
    position_le(a.start, b.end) && position_le(b.start, a.end)
}

/// Whether two LSP ranges touch at least one common line.
pub open spec fn spec_ranges_touch_same_line(a: LspRange, b: LspRange) -> bool {
    a.start.line <= b.end.line && b.start.line <= a.end.line
}

/// Whether two LSP ranges touch at least one common line.
pub fn ranges_touch_same_line(a: LspRange, b: LspRange) -> (r: bool)
    ensures
        r == spec_ranges_touch_same_line(a, b),
{
    a.start.line <= b.end.line && b.start.line <= a.end.line
}

} // verus!
