//! The diagnostic cache renderer.
//!
//! A publish replaces one server's diagnostics for a buffer; the renderer
//! then recomputes, for that buffer, the per-severity counts, the inline
//! highlight ranges (painted in descending severity so the most severe
//! face lands on top), the per-line inlay texts, and the merged line-flag
//! column that diagnostics share with code lenses.

use vstd::prelude::*;

use crate::escape::buffer_envelope;
use crate::escape::buffer_envelope_seq;
use crate::escape::editor_escape_double_quotes_seq;
use crate::escape::editor_quote_seq;
use crate::escape::escape_kakoune_markup_seq;
use crate::escape::escape_tuple_element_seq;
use crate::position::byte_length;
use crate::position::line_at;
use crate::position::files_fit;
use crate::position::lines_fit;
use crate::position::spec_located_position;
use crate::sorting::sort_by_key;
use crate::strutil::dec_digits;
use crate::strutil::join_with;
use crate::strutil::join_pieces;
use crate::strutil::piece_views;
use crate::strutil::push_chars;
use crate::strutil::push_str;
use crate::strutil::push_u32;
use crate::types::CodeLens;
use crate::types::Diagnostic;
use crate::types::ServerId;

verus! {

/// The severity class a diagnostic counts, paints and competes as:
/// known codes stand for themselves; a missing or unknown code is
/// treated as a warning.
pub open spec fn severity_class(sev: Option<u32>) -> u32 {
    match sev {
        Option::None => 2,
        Option::Some(c) => if c == 1 || c == 2 || c == 3 || c == 4 {
            c
        } else {
            2
        },
    }
}

/// The severity class a diagnostic counts, paints and competes as.
fn severity_class_exec(sev: Option<u32>) -> (r: u32)
    ensures
        r == severity_class(sev),
{
    match sev {
        Option::None => 2,
        Option::Some(c) => if c == 1 || c == 2 || c == 3 || c == 4 {
            c
        } else {
            2
        },
    }
}

/// How many cached diagnostics fall in severity class `c`.
pub open spec fn count_class(s: Seq<(ServerId, Diagnostic)>, c: u32) -> int
    decreases s.len(),
{
    if s.len() == 0 {
        0
    } else {
        count_class(s.drop_last(), c) + if severity_class(s.last().1.severity) == c {
            1int
        } else {
            0int
        }
    }
}

/// The highlighter face of a diagnostic.
pub open spec fn spec_diagnostic_face(sev: Option<u32>) -> Seq<char> {
    if sev == Option::Some(1u32) {
        "DiagnosticError"@
    } else if sev == Option::Some(4u32) {
        "DiagnosticHint"@
    } else if sev == Option::Some(3u32) {
        "DiagnosticInfo"@
    } else {
        "DiagnosticWarning"@
    }
}

/// The inlay face of a diagnostic.
pub open spec fn spec_inlay_face(sev: Option<u32>) -> Seq<char> {
    if sev == Option::Some(1u32) {
        "InlayDiagnosticError"@
    } else if sev == Option::Some(4u32) {
        "InlayDiagnosticHint"@
    } else if sev == Option::Some(3u32) {
        "InlayDiagnosticInfo"@
    } else {
        "InlayDiagnosticWarning"@
    }
}

/// The word used in the diagnostics list view.
pub open spec fn spec_severity_word(sev: Option<u32>) -> Seq<char> {
    if sev == Option::Some(1u32) {
        "error"@
    } else if sev == Option::Some(4u32) {
        "hint"@
    } else if sev == Option::Some(3u32) {
        "info"@
    } else {
        "warning"@
    }
}

/// The line-flag markup of a diagnostic; missing and unknown codes
/// carry the warning flag.
pub open spec fn spec_line_flag_label(sev: Option<u32>) -> Seq<char> {
    if sev == Option::Some(1u32) {
        "{LineFlagError}%opt[lsp_diagnostic_line_error_sign]"@
    } else if sev == Option::Some(4u32) {
        "{LineFlagHint}%opt[lsp_diagnostic_line_hint_sign]"@
    } else if sev == Option::Some(3u32) {
        "{LineFlagInfo}%opt[lsp_diagnostic_line_info_sign]"@
    } else {
        "{LineFlagWarning}%opt[lsp_diagnostic_line_warning_sign]"@
    }
}

pub fn diagnostic_face(sev: Option<u32>) -> (r: &'static str)
    ensures
        r@ == spec_diagnostic_face(sev),
{
    match sev {
        Option::Some(1u32) => "DiagnosticError",
        Option::Some(4u32) => "DiagnosticHint",
        Option::Some(3u32) => "DiagnosticInfo",
        _ => "DiagnosticWarning",
    }
}

pub fn inlay_face(sev: Option<u32>) -> (r: &'static str)
    ensures
        r@ == spec_inlay_face(sev),
{
    match sev {
        Option::Some(1u32) => "InlayDiagnosticError",
        Option::Some(4u32) => "InlayDiagnosticHint",
        Option::Some(3u32) => "InlayDiagnosticInfo",
        _ => "InlayDiagnosticWarning",
    }
}

pub fn severity_word(sev: Option<u32>) -> (r: &'static str)
    ensures
        r@ == spec_severity_word(sev),
{
    match sev {
        Option::Some(1u32) => "error",
        Option::Some(4u32) => "hint",
        Option::Some(3u32) => "info",
        _ => "warning",
    }
}

pub fn line_flag_label(sev: Option<u32>) -> (r: &'static str)
    ensures
        r@ == spec_line_flag_label(sev),
{
    match sev {
        Option::Some(1u32) => "{LineFlagError}%opt[lsp_diagnostic_line_error_sign]",
        Option::Some(4u32) => "{LineFlagHint}%opt[lsp_diagnostic_line_hint_sign]",
        Option::Some(3u32) => "{LineFlagInfo}%opt[lsp_diagnostic_line_info_sign]",
        _ => "{LineFlagWarning}%opt[lsp_diagnostic_line_warning_sign]",
    }
}

/// The diagnostic line-flag stream: one `(start line, markup)` entry per
/// cached diagnostic, in cache order.
pub open spec fn diag_flag_entries(s: Seq<(ServerId, Diagnostic)>) -> Seq<(u32, Seq<char>)>
    decreases s.len(),
{
    if s.len() == 0 {
        Seq::empty()
    } else {
        diag_flag_entries(s.drop_last()).push(
            (s.last().1.range.start.line, spec_line_flag_label(s.last().1.severity)),
        )
    }
}

/// The code-lens line-flag stream: one `(start line, lens sign)` entry per
/// cached lens, in cache order.
pub open spec fn lens_flag_entries(s: Seq<(ServerId, CodeLens)>) -> Seq<(u32, Seq<char>)>
    decreases s.len(),
{
    if s.len() == 0 {
        Seq::empty()
    } else {
        lens_flag_entries(s.drop_last()).push(
            (s.last().1.range.start.line, "%opt[lsp_code_lens_sign]"@),
        )
    }
}

/// The merge of two line-flag streams by ascending line, pairing equal
/// lines off against each other; the diagnostic (left) mark wins a pair.
pub open spec fn merge_flags(a: Seq<(u32, Seq<char>)>, b: Seq<(u32, Seq<char>)>) -> Seq<
    (u32, Seq<char>),
>
    decreases a.len() + b.len(),
{
    if a.len() == 0 {
        b
    } else if b.len() == 0 {
        a
    } else if a[0].0 < b[0].0 {
        seq![a[0]] + merge_flags(a.drop_first(), b)
    } else if a[0].0 > b[0].0 {
        seq![b[0]] + merge_flags(a, b.drop_first())
    } else {
        seq![a[0]] + merge_flags(a.drop_first(), b.drop_first())
    }
}

/// One rendered flag: `'<line+1>|<markup>'`.
pub open spec fn flag_fmt(e: (u32, Seq<char>)) -> Seq<char> {
    seq!['\''] + dec_digits((e.0 + 1) as nat) + seq!['|'] + e.1 + seq!['\'']
}

/// The rendered line-flag option value.
pub open spec fn spec_line_flags(
    diags: Seq<(ServerId, Diagnostic)>,
    lenses: Seq<(ServerId, CodeLens)>,
) -> Seq<char> {
    join_with(
        merge_flags(diag_flag_entries(diags), lens_flag_entries(lenses)).map_values(
            |e: (u32, Seq<char>)| flag_fmt(e),
        ),
        " "@,
    )
}

/// Every flagged line leaves room for the editor's 1-based convention.
pub open spec fn diag_lines_fit(s: Seq<(ServerId, Diagnostic)>) -> bool {
    forall|i: int| 0 <= i < s.len() ==> (#[trigger] s[i]).1.range.start.line < 0xffff_ffff
}

pub open spec fn lens_lines_fit(s: Seq<(ServerId, CodeLens)>) -> bool {
    forall|i: int| 0 <= i < s.len() ==> (#[trigger] s[i]).1.range.start.line < 0xffff_ffff
}

/// The views of the working entry representation.
pub open spec fn entry_views(s: Seq<(u32, String)>) -> Seq<(u32, Seq<char>)> {
    s.map_values(|e: (u32, String)| (e.0, e.1@))
}

/// Builds the diagnostic flag stream.
fn build_diag_flag_entries(diags: &Vec<(ServerId, Diagnostic)>) -> (r: Vec<(u32, String)>)
    ensures
        entry_views(r@) == diag_flag_entries(diags@),
{
    let mut out: Vec<(u32, String)> = Vec::new();
    let mut i: usize = 0;
    proof {
        assert(diags@.take(0) =~= Seq::<(ServerId, Diagnostic)>::empty());
        assert(entry_views(out@) =~= diag_flag_entries(diags@.take(0)));
    }
    while i < diags.len()
        invariant
            i <= diags@.len(),
            entry_views(out@) == diag_flag_entries(diags@.take(i as int)),
        decreases diags@.len() - i,
    {
        let line = diags[i].1.range.start.line;
        let label = line_flag_label(diags[i].1.severity);
        let ghost prev = out@;
        out.push((line, label.to_owned()));
        proof {
            assert(diags@.take(i as int + 1).drop_last() =~= diags@.take(i as int));
            assert(diags@.take(i as int + 1).last() == diags@[i as int]);
            assert(entry_views(out@) =~= entry_views(prev).push((line, label@)));
        }
        i = i + 1;
    }
    proof {
        assert(diags@.take(diags@.len() as int) =~= diags@);
    }
    out
}

/// Builds the code-lens flag stream.
fn build_lens_flag_entries(lenses: &Vec<(ServerId, CodeLens)>) -> (r: Vec<(u32, String)>)
    ensures
        entry_views(r@) == lens_flag_entries(lenses@),
{
    let mut out: Vec<(u32, String)> = Vec::new();
    let mut i: usize = 0;
    proof {
        assert(lenses@.take(0) =~= Seq::<(ServerId, CodeLens)>::empty());
        assert(entry_views(out@) =~= lens_flag_entries(lenses@.take(0)));
    }
    while i < lenses.len()
        invariant
            i <= lenses@.len(),
            entry_views(out@) == lens_flag_entries(lenses@.take(i as int)),
        decreases lenses@.len() - i,
    {
        let line = lenses[i].1.range.start.line;
        let label: &'static str = "%opt[lsp_code_lens_sign]";
        let ghost prev = out@;
        out.push((line, label.to_owned()));
        proof {
            assert(lenses@.take(i as int + 1).drop_last() =~= lenses@.take(i as int));
            assert(lenses@.take(i as int + 1).last() == lenses@[i as int]);
            assert(entry_views(out@) =~= entry_views(prev).push((line, label@)));
        }
        i = i + 1;
    }
    proof {
        assert(lenses@.take(lenses@.len() as int) =~= lenses@);
    }
    out
}

/// Merges the two flag streams by ascending line; the diagnostic mark wins
/// a shared line.
fn merge_flag_entries(a: Vec<(u32, String)>, b: Vec<(u32, String)>) -> (r: Vec<(u32, String)>)
    ensures
        entry_views(r@) == merge_flags(entry_views(a@), entry_views(b@)),
{
    let ghost av = entry_views(a@);
    let ghost bv = entry_views(b@);
    let mut out: Vec<(u32, String)> = Vec::new();
    let mut a = a;
    let mut b = b;
    let mut i: usize = 0;
    let mut j: usize = 0;
    proof {
        assert(av.skip(0) =~= av);
        assert(bv.skip(0) =~= bv);
        assert(entry_views(out@) =~= Seq::<(u32, Seq<char>)>::empty());
    }
    while i < a.len() && j < b.len()
        invariant
            i <= a@.len(),
            j <= b@.len(),
            av == entry_views(a@),
            bv == entry_views(b@),
            entry_views(out@) + merge_flags(av.skip(i as int), bv.skip(j as int)) == merge_flags(
                av,
                bv,
            ),
        decreases a@.len() - i + b@.len() - j,
    {
        let ghost prev = entry_views(out@);
        let ghost ra = av.skip(i as int);
        let ghost rb = bv.skip(j as int);
        proof {
            assert(ra[0] == av[i as int]);
            assert(rb[0] == bv[j as int]);
            assert(ra.drop_first() =~= av.skip(i as int + 1));
            assert(rb.drop_first() =~= bv.skip(j as int + 1));
        }
        if a[i].0 < b[j].0 {
            let line = a[i].0;
            let label = a[i].1.clone();
            out.push((line, label));
            proof {
                assert(entry_views(out@) =~= prev.push(ra[0]));
                assert(prev.push(ra[0]) =~= prev + seq![ra[0]]);
                assert(merge_flags(ra, rb) == seq![ra[0]] + merge_flags(ra.drop_first(), rb));
                assert(prev + (seq![ra[0]] + merge_flags(ra.drop_first(), rb)) =~= (prev + seq![
                    ra[0],
                ]) + merge_flags(ra.drop_first(), rb));
            }
            i = i + 1;
        } else if a[i].0 > b[j].0 {
            let line = b[j].0;
            let label = b[j].1.clone();
            out.push((line, label));
            proof {
                assert(entry_views(out@) =~= prev.push(rb[0]));
                assert(prev.push(rb[0]) =~= prev + seq![rb[0]]);
                assert(merge_flags(ra, rb) == seq![rb[0]] + merge_flags(ra, rb.drop_first()));
                assert(prev + (seq![rb[0]] + merge_flags(ra, rb.drop_first())) =~= (prev + seq![
                    rb[0],
                ]) + merge_flags(ra, rb.drop_first()));
            }
            j = j + 1;
        } else {
            let line = a[i].0;
            let label = a[i].1.clone();
            out.push((line, label));
            proof {
                assert(entry_views(out@) =~= prev.push(ra[0]));
                assert(prev.push(ra[0]) =~= prev + seq![ra[0]]);
                assert(merge_flags(ra, rb) == seq![ra[0]] + merge_flags(
                    ra.drop_first(),
                    rb.drop_first(),
                ));
                assert(prev + (seq![ra[0]] + merge_flags(ra.drop_first(), rb.drop_first())) =~= (
                prev + seq![ra[0]]) + merge_flags(ra.drop_first(), rb.drop_first()));
            }
            i = i + 1;
            j = j + 1;
        }
    }
    if j >= b.len() {
    while i < a.len()
        invariant
            i <= a@.len(),
            j <= b@.len(),
            av == entry_views(a@),
            bv == entry_views(b@),
            j == b@.len(),
            entry_views(out@) + merge_flags(av.skip(i as int), bv.skip(j as int)) == merge_flags(
                av,
                bv,
            ),
        decreases a@.len() - i,
    {
        let ghost prev = entry_views(out@);
        let ghost ra = av.skip(i as int);
        let ghost rb = bv.skip(j as int);
        proof {
            assert(rb.len() == 0);
            assert(ra[0] == av[i as int]);
            assert(merge_flags(ra, rb) == ra);
            assert(ra =~= seq![ra[0]] + av.skip(i as int + 1));
            assert(merge_flags(av.skip(i as int + 1), rb) == av.skip(i as int + 1));
        }
        let line = a[i].0;
        let label = a[i].1.clone();
        out.push((line, label));
        proof {
            assert(entry_views(out@) =~= prev.push(ra[0]));
            assert(prev.push(ra[0]) + av.skip(i as int + 1) =~= prev + ra);
        }
        i = i + 1;
    }
    }
    if i >= a.len() {
    while j < b.len()
        invariant
            i <= a@.len(),
            j <= b@.len(),
            av == entry_views(a@),
            bv == entry_views(b@),
            i == a@.len(),
            entry_views(out@) + merge_flags(av.skip(i as int), bv.skip(j as int)) == merge_flags(
                av,
                bv,
            ),
        decreases b@.len() - j,
    {
        let ghost prev = entry_views(out@);
        let ghost ra = av.skip(i as int);
        let ghost rb = bv.skip(j as int);
        proof {
            assert(ra.len() == 0);
            assert(rb[0] == bv[j as int]);
            assert(merge_flags(ra, rb) == rb);
            assert(rb =~= seq![rb[0]] + bv.skip(j as int + 1));
            assert(merge_flags(ra, bv.skip(j as int + 1)) == bv.skip(j as int + 1));
        }
        let line = b[j].0;
        let label = b[j].1.clone();
        out.push((line, label));
        proof {
            assert(entry_views(out@) =~= prev.push(rb[0]));
            assert(prev.push(rb[0]) + bv.skip(j as int + 1) =~= prev + rb);
        }
        j = j + 1;
    }
    }
    proof {
        assert(av.skip(i as int).len() == 0 || bv.skip(j as int).len() == 0);
        assert(merge_flags(av.skip(i as int), bv.skip(j as int)).len() == 0);
        assert(entry_views(out@) + merge_flags(av.skip(i as int), bv.skip(j as int)) =~= entry_views(
            out@,
        ));
    }
    out
}

/// Renders one flag entry.
fn render_flag_entry(line: u32, label: &String) -> (r: Vec<char>)
    requires
        line < 0xffff_ffff,
    ensures
        r@ == flag_fmt((line, label@)),
{
    let mut piece: Vec<char> = Vec::new();
    piece.push('\'');
    push_u32(&mut piece, line + 1);
    piece.push('|');
    push_str(&mut piece, label.as_str());
    piece.push('\'');
    proof {
        assert(piece@ =~= flag_fmt((line, label@)));
    }
    piece
}

/// Computes the rendered line-flag column and the per-severity counts of
/// the cached diagnostics.
fn line_flags_and_counts(
    diagnostics: &Vec<(ServerId, Diagnostic)>,
    lenses: &Vec<(ServerId, CodeLens)>,
) -> (r: (Vec<char>, u32, u32, u32, u32))
    requires
        diags_fit(diagnostics@),
        lens_lines_fit(lenses@),
    ensures
        r.0@ == spec_line_flags(diagnostics@, lenses@),
        r.1 == count_class(diagnostics@, 1),
        r.2 == count_class(diagnostics@, 4),
        r.3 == count_class(diagnostics@, 3),
        r.4 == count_class(diagnostics@, 2),
{
    let d_entries = build_diag_flag_entries(diagnostics);
    let l_entries = build_lens_flag_entries(lenses);
    let merged = merge_flag_entries(d_entries, l_entries);
    let ghost mv = merge_flags(diag_flag_entries(diagnostics@), lens_flag_entries(lenses@));
    proof {
        lemma_diag_flag_entries_lines(diagnostics@);
        lemma_lens_flag_entries_lines(lenses@);
        lemma_merge_flags_lines(
            diag_flag_entries(diagnostics@),
            lens_flag_entries(lenses@),
        );
    }
    let mut pieces: Vec<Vec<char>> = Vec::new();
    let mut k: usize = 0;
    proof {
        assert(piece_views(pieces@) =~= mv.map_values(|e: (u32, Seq<char>)| flag_fmt(e)).take(0));
    }
    while k < merged.len()
        invariant
            k <= merged@.len(),
            entry_views(merged@) == mv,
            forall|t: int| 0 <= t < mv.len() ==> (#[trigger] mv[t]).0 < 0xffff_ffff,
            piece_views(pieces@) == mv.map_values(|e: (u32, Seq<char>)| flag_fmt(e)).take(k as int),
        decreases merged@.len() - k,
    {
        proof {
            assert(mv[k as int] == (merged@[k as int].0, merged@[k as int].1@));
        }
        let piece = render_flag_entry(merged[k].0, &merged[k].1);
        let ghost prev = piece_views(pieces@);
        pieces.push(piece);
        proof {
            let mapped = mv.map_values(|e: (u32, Seq<char>)| flag_fmt(e));
            assert(piece_views(pieces@) =~= prev.push(flag_fmt(mv[k as int])));
            assert(mapped.take(k as int + 1) =~= mapped.take(k as int).push(mapped[k as int]));
        }
        k = k + 1;
    }
    proof {
        let mapped = mv.map_values(|e: (u32, Seq<char>)| flag_fmt(e));
        assert(mapped.take(mv.len() as int) =~= mapped);
    }
    let flags = join_pieces(&pieces, " ");
    let counts = count_severities(diagnostics);
    (flags, counts.0, counts.1, counts.2, counts.3)
}

/// Diagnostics whose flags and counts stay within machine limits.
pub open spec fn diags_fit(s: Seq<(ServerId, Diagnostic)>) -> bool {
    diag_lines_fit(s) && s.len() < 0x1_0000_0000
}

/// Counts the cached diagnostics by severity class: errors, hints, infos,
/// warnings.
fn count_severities(diagnostics: &Vec<(ServerId, Diagnostic)>) -> (r: (u32, u32, u32, u32))
    requires
        diagnostics@.len() < 0x1_0000_0000,
    ensures
        r.0 == count_class(diagnostics@, 1),
        r.1 == count_class(diagnostics@, 4),
        r.2 == count_class(diagnostics@, 3),
        r.3 == count_class(diagnostics@, 2),
{
    let mut errors: u32 = 0;
    let mut hints: u32 = 0;
    let mut infos: u32 = 0;
    let mut warnings: u32 = 0;
    let mut i: usize = 0;
    proof {
        assert(diagnostics@.take(0) =~= Seq::<(ServerId, Diagnostic)>::empty());
    }
    while i < diagnostics.len()
        invariant
            i <= diagnostics@.len(),
            diagnostics@.len() < 0x1_0000_0000,
            errors == count_class(diagnostics@.take(i as int), 1),
            hints == count_class(diagnostics@.take(i as int), 4),
            infos == count_class(diagnostics@.take(i as int), 3),
            warnings == count_class(diagnostics@.take(i as int), 2),
            errors <= i && hints <= i && infos <= i && warnings <= i,
        decreases diagnostics@.len() - i,
    {
        proof {
            assert(diagnostics@.take(i as int + 1).drop_last() =~= diagnostics@.take(i as int));
            assert(diagnostics@.take(i as int + 1).last() == diagnostics@[i as int]);
        }
        match diagnostics[i].1.severity {
            Option::Some(1u32) => {
                errors = errors + 1;
            },
            Option::Some(4u32) => {
                hints = hints + 1;
            },
            Option::Some(3u32) => {
                infos = infos + 1;
            },
            _ => {
                warnings = warnings + 1;
            },
        }
        i = i + 1;
    }
    proof {
        assert(diagnostics@.take(diagnostics@.len() as int) =~= diagnostics@);
    }
    (errors, hints, infos, warnings)
}

/// Every line of the diagnostic flag stream is a cached start line.
proof fn lemma_diag_flag_entries_lines(s: Seq<(ServerId, Diagnostic)>)
    requires
        diag_lines_fit(s),
    ensures
        forall|t: int|
            0 <= t < diag_flag_entries(s).len() ==> (#[trigger] diag_flag_entries(s)[t]).0
                < 0xffff_ffff,
    decreases s.len(),
{
    if s.len() > 0 {
        assert(diag_lines_fit(s.drop_last())) by {
            assert(forall|i: int|
                0 <= i < s.drop_last().len() ==> s.drop_last()[i] == #[trigger] s[i]);
        }
        lemma_diag_flag_entries_lines(s.drop_last());
        let r = diag_flag_entries(s);
        let r0 = diag_flag_entries(s.drop_last());
        assert forall|t: int| 0 <= t < r.len() implies (#[trigger] r[t]).0 < 0xffff_ffff by {
            if t < r0.len() {
                assert(r[t] == r0[t]);
            } else {
                assert(r[t] == (s.last().1.range.start.line, spec_line_flag_label(
                    s.last().1.severity,
                )));
                assert(s[s.len() - 1] == s.last());
            }
        }
    }
}

proof fn lemma_lens_flag_entries_lines(s: Seq<(ServerId, CodeLens)>)
    requires
        lens_lines_fit(s),
    ensures
        forall|t: int|
            0 <= t < lens_flag_entries(s).len() ==> (#[trigger] lens_flag_entries(s)[t]).0
                < 0xffff_ffff,
    decreases s.len(),
{
    if s.len() > 0 {
        assert(lens_lines_fit(s.drop_last())) by {
            assert(forall|i: int|
                0 <= i < s.drop_last().len() ==> s.drop_last()[i] == #[trigger] s[i]);
        }
        lemma_lens_flag_entries_lines(s.drop_last());
        let r = lens_flag_entries(s);
        let r0 = lens_flag_entries(s.drop_last());
        assert forall|t: int| 0 <= t < r.len() implies (#[trigger] r[t]).0 < 0xffff_ffff by {
            if t < r0.len() {
                assert(r[t] == r0[t]);
            } else {
                assert(r[t] == (s.last().1.range.start.line, "%opt[lsp_code_lens_sign]"@));
                assert(s[s.len() - 1] == s.last());
            }
        }
    }
}

/// Ascending paint key over the severity class: less severe classes come
/// first, so the most severe face is painted last and lands on top;
/// missing and unknown codes paint as warnings.
pub open spec fn severity_sort_key(sev: Option<u32>) -> u64 {
    (0xffff_ffffu64 - severity_class(sev) as u64) as u64
}

fn severity_sort_key_exec(sev: Option<u32>) -> (r: u64)
    ensures
        r == severity_sort_key(sev),
{
    0xffff_ffffu64 - (severity_class_exec(sev) as u64)
}

/// Each cached diagnostic tagged with its paint-order key and its cache
/// index.
pub open spec fn sev_tagged(s: Seq<(ServerId, Diagnostic)>) -> Seq<(u64, usize)> {
    Seq::new(s.len(), |i: int| (severity_sort_key(s[i].1.severity), i as usize))
}

/// Every server id points into the registry and every range line leaves
/// room for the editor's 1-based convention.
pub open spec fn diags_wf(s: Seq<(ServerId, Diagnostic)>, n_servers: int) -> bool {
    &&& s.len() < 0x1_0000_0000
    &&& forall|i: int| 0 <= i < s.len() ==> (#[trigger] s[i]).0 < n_servers
    &&& forall|i: int| 0 <= i < s.len() ==> (#[trigger] s[i]).1.range.start.line < 0xffff_ffff
    &&& forall|i: int| 0 <= i < s.len() ==> (#[trigger] s[i]).1.range.end.line < 0xffff_ffff
    &&& forall|i: int| 0 <= i < s.len() ==> (#[trigger] s[i]).1.range.start.character
        < 0xffff_ffff
}

/// One inline highlight: the diagnostic's range in editor coordinates
/// under its server's encoding, and its face.
pub open spec fn spec_inline_entry(
    e: (ServerId, Diagnostic),
    regs: Seq<crate::types::ServerSettings>,
    lines: Seq<Vec<char>>,
) -> Seq<char> {
    let enc = regs[e.0 as int].offset_encoding;
    crate::position::spec_editor_range_fmt(
        crate::types::EditorRange {
            start: crate::position::lsp_position_to_editor_spec(e.1.range.start, lines, enc),
            end: crate::position::lsp_position_to_editor_spec(e.1.range.end, lines, enc),
        },
    ) + seq!['|'] + spec_diagnostic_face(e.1.severity)
}

/// The inline-highlight option value: all cached diagnostics, painted in
/// ascending paint order (most severe last, so it lands on top).
pub open spec fn spec_inline_diagnostics(
    s: Seq<(ServerId, Diagnostic)>,
    regs: Seq<crate::types::ServerSettings>,
    lines: Seq<Vec<char>>,
) -> Seq<char> {
    join_with(
        sort_by_key(sev_tagged(s)).map_values(
            |p: (u64, usize)| spec_inline_entry(s[p.1 as int], regs, lines),
        ),
        " "@,
    )
}

/// Indices carried through the severity sort stay valid.
proof fn lemma_sev_sorted_indices(s: Seq<(ServerId, Diagnostic)>)
    ensures
        sort_by_key(sev_tagged(s)).len() == s.len(),
        forall|k: int|
            0 <= k < s.len() ==> (#[trigger] sort_by_key(sev_tagged(s))[k]).1 < s.len(),
{
    crate::sorting::lemma_sort_by_key_contains(sev_tagged(s));
    assert(sev_tagged(s).len() == s.len());
    assert forall|k: int| 0 <= k < s.len() implies (#[trigger] sort_by_key(sev_tagged(s))[k]).1
        < s.len() by {
        assert(sev_tagged(s).contains(sort_by_key(sev_tagged(s))[k]));
        let w = choose|w: int|
            0 <= w < sev_tagged(s).len() && sev_tagged(s)[w] == sort_by_key(sev_tagged(s))[k];
        assert(sev_tagged(s)[w].1 == w as usize);
    }
}

/// Renders the inline-highlight option value.
fn render_inline_diagnostics(
    diags: &Vec<(ServerId, Diagnostic)>,
    registry: &crate::types::ServerRegistry,
    doc_lines: &Vec<Vec<char>>,
) -> (r: Vec<char>)
    requires
        diags_wf(diags@, registry.servers@.len() as int),
        lines_fit(doc_lines@),
    ensures
        r@ == spec_inline_diagnostics(diags@, registry.servers@, doc_lines@),
{
    let mut tagged: Vec<(u64, usize)> = Vec::new();
    let mut i: usize = 0;
    while i < diags.len()
        invariant
            i <= diags@.len(),
            tagged@ == sev_tagged(diags@).take(i as int),
        decreases diags@.len() - i,
    {
        let key = severity_sort_key_exec(diags[i].1.severity);
        tagged.push((key, i));
        proof {
            assert(sev_tagged(diags@).take(i as int + 1) =~= sev_tagged(diags@).take(
                i as int,
            ).push(sev_tagged(diags@)[i as int]));
        }
        i = i + 1;
    }
    proof {
        assert(sev_tagged(diags@).take(diags@.len() as int) =~= sev_tagged(diags@));
    }
    let sorted = crate::sorting::sort_pairs_by_key(tagged);
    proof {
        lemma_sev_sorted_indices(diags@);
    }
    let ghost sortedv = sort_by_key(sev_tagged(diags@));
    let ghost mapped = sortedv.map_values(
        |p: (u64, usize)| spec_inline_entry(diags@[p.1 as int], registry.servers@, doc_lines@),
    );
    let mut pieces: Vec<Vec<char>> = Vec::new();
    let mut k: usize = 0;
    proof {
        assert(piece_views(pieces@) =~= mapped.take(0));
    }
    while k < sorted.len()
        invariant
            k <= sorted@.len(),
            sorted@ == sortedv,
            sortedv.len() == diags@.len(),
            forall|t: int| 0 <= t < sortedv.len() ==> (#[trigger] sortedv[t]).1 < diags@.len(),
            mapped == sortedv.map_values(
                |p: (u64, usize)| spec_inline_entry(
                    diags@[p.1 as int],
                    registry.servers@,
                    doc_lines@,
                ),
            ),
            diags_wf(diags@, registry.servers@.len() as int),
            lines_fit(doc_lines@),
            piece_views(pieces@) == mapped.take(k as int),
        decreases sorted@.len() - k,
    {
        let idx = sorted[k].1;
        let sid = diags[idx].0;
        let enc = registry.get(sid).offset_encoding;
        let er = crate::position::lsp_range_to_editor(&diags[idx].1.range, doc_lines, enc);
        let mut piece: Vec<char> = Vec::new();
        crate::position::push_editor_range(&mut piece, er);
        piece.push('|');
        push_str(&mut piece, diagnostic_face(diags[idx].1.severity));
        let ghost prev = piece_views(pieces@);
        proof {
            assert(piece@ =~= spec_inline_entry(
                diags@[idx as int],
                registry.servers@,
                doc_lines@,
            ));
            assert(mapped[k as int] == spec_inline_entry(
                diags@[sortedv[k as int].1 as int],
                registry.servers@,
                doc_lines@,
            ));
        }
        pieces.push(piece);
        proof {
            assert(piece_views(pieces@) =~= prev.push(mapped[k as int]));
            assert(mapped.take(k as int + 1) =~= mapped.take(k as int).push(mapped[k as int]));
        }
        k = k + 1;
    }
    proof {
        assert(mapped.take(sortedv.len() as int) =~= mapped);
    }
    join_pieces(&pieces, " ")
}

/// The distinct end lines of the cached diagnostics, in first-encounter
/// order.
pub open spec fn distinct_end_lines(s: Seq<(ServerId, Diagnostic)>) -> Seq<u32>
    decreases s.len(),
{
    if s.len() == 0 {
        Seq::empty()
    } else {
        let p = distinct_end_lines(s.drop_last());
        if p.contains(s.last().1.range.end.line) {
            p
        } else {
            p.push(s.last().1.range.end.line)
        }
    }
}

/// The gutter signs of line `l`: one face-tagged sign per diagnostic
/// ending on that line, in cache order.
pub open spec fn line_symbols(s: Seq<(ServerId, Diagnostic)>, l: u32) -> Seq<char>
    decreases s.len(),
{
    if s.len() == 0 {
        Seq::empty()
    } else {
        line_symbols(s.drop_last(), l) + if s.last().1.range.end.line == l {
            seq!['{'] + spec_inlay_face(s.last().1.severity) + seq!['}']
                + "%opt[lsp_inlay_diagnostic_sign]"@
        } else {
            Seq::empty()
        }
    }
}

/// The diagnostic whose message line `l` displays: the first diagnostic
/// of the most severe class on the line; later ones take over only when
/// strictly more severe.
pub open spec fn line_winner(s: Seq<(ServerId, Diagnostic)>, l: u32) -> Option<Diagnostic>
    decreases s.len(),
{
    if s.len() == 0 {
        Option::None
    } else {
        let w = line_winner(s.drop_last(), l);
        if s.last().1.range.end.line != l {
            w
        } else {
            match w {
                Option::None => Option::Some(s.last().1),
                Option::Some(prev) => if severity_class(s.last().1.severity) < severity_class(
                    prev.severity,
                ) {
                    Option::Some(s.last().1)
                } else {
                    w
                },
            }
        }
    }
}

/// The first message line: up to the first newline.
pub open spec fn first_line_of(m: Seq<char>) -> Seq<char> {
    m.take(crate::parse::find_char(m, '\n'))
}

/// One inlay entry: the gutter position just past end-of-line, the signs,
/// and the winning message's first line, face-tagged and escaped.
pub open spec fn spec_inlay_entry(
    s: Seq<(ServerId, Diagnostic)>,
    l: u32,
    lines: Seq<Vec<char>>,
) -> Seq<char> {
    let bl = byte_length(line_at(lines, l as int));
    let column: int = if bl >= 1 {
        bl
    } else {
        1
    };
    let w = line_winner(s, l)->0;
    seq!['"'] + dec_digits((l + 1) as nat) + seq!['.'] + dec_digits(column as nat)
        + "+0|%opt[lsp_inlay_diagnostic_gap]"@ + line_symbols(s, l) + seq![' ', '{']
        + spec_inlay_face(w.severity) + seq!['}'] + editor_escape_double_quotes_seq(
        escape_tuple_element_seq(escape_kakoune_markup_seq(first_line_of(w.message@))),
    ) + seq!['"']
}

/// The distinct flagged lines tagged with themselves for ascending order.
pub open spec fn line_tagged(ls: Seq<u32>) -> Seq<(u64, u32)> {
    Seq::new(ls.len(), |i: int| (ls[i] as u64, ls[i]))
}

/// The inlay option value: one entry per line with diagnostics, by
/// ascending line.
pub open spec fn spec_inlay_diagnostics(
    s: Seq<(ServerId, Diagnostic)>,
    lines: Seq<Vec<char>>,
) -> Seq<char> {
    join_with(
        sort_by_key(line_tagged(distinct_end_lines(s))).map_values(
            |p: (u64, u32)| spec_inlay_entry(s, p.1, lines),
        ),
        " "@,
    )
}

/// A line is distinct iff some cached diagnostic ends on it.
proof fn lemma_distinct_end_lines_exists(s: Seq<(ServerId, Diagnostic)>, l: u32)
    ensures
        distinct_end_lines(s).contains(l) <==> exists|i: int|
            0 <= i < s.len() && (#[trigger] s[i]).1.range.end.line == l,
    decreases s.len(),
{
    if s.len() > 0 {
        lemma_distinct_end_lines_exists(s.drop_last(), l);
        assert(forall|i: int| 0 <= i < s.len() - 1 ==> s.drop_last()[i] == #[trigger] s[i]);
        let p = distinct_end_lines(s.drop_last());
        let ll = s.last().1.range.end.line;
        let d = distinct_end_lines(s);
        if d.contains(l) {
            if l == ll {
                assert(s[s.len() - 1] == s.last());
                assert((s[s.len() - 1]).1.range.end.line == l);
            } else {
                let w = choose|w: int| 0 <= w < d.len() && d[w] == l;
                if p.contains(ll) {
                    assert(d == p);
                    assert(p[w] == l);
                } else {
                    assert(d == p.push(ll));
                    if w < p.len() {
                        assert(p[w] == l);
                    } else {
                        assert(d[w] == ll);
                        assert(false);
                    }
                }
                assert(p.contains(l));
                let e = choose|e: int|
                    0 <= e < s.drop_last().len() && (#[trigger] s.drop_last()[e]).1.range.end.line
                        == l;
                assert((s[e]).1.range.end.line == l);
            }
        }
        if exists|i: int| 0 <= i < s.len() && (#[trigger] s[i]).1.range.end.line == l {
            let e = choose|e: int| 0 <= e < s.len() && (#[trigger] s[e]).1.range.end.line == l;
            if e == s.len() - 1 {
                assert(l == ll);
                if p.contains(l) {
                    assert(d == p);
                } else {
                    assert(d == p.push(ll));
                    assert(d[p.len() as int] == ll);
                }
                assert(d.contains(l));
            } else {
                assert((s.drop_last()[e]).1.range.end.line == l);
                assert(exists|i: int|
                    0 <= i < s.drop_last().len() && (#[trigger] s.drop_last()[i]).1.range.end.line
                        == l);
                assert(p.contains(l));
                let w = choose|w: int| 0 <= w < p.len() && p[w] == l;
                if p.contains(ll) {
                    assert(d == p);
                } else {
                    assert(d == p.push(ll));
                    assert(d[w] == l);
                }
                assert(d.contains(l));
            }
        }
    }
}

/// A line with a diagnostic has a winner.
proof fn lemma_line_winner_exists(s: Seq<(ServerId, Diagnostic)>, l: u32)
    ensures
        (line_winner(s, l) is Some) <==> exists|i: int|
            0 <= i < s.len() && (#[trigger] s[i]).1.range.end.line == l,
    decreases s.len(),
{
    if s.len() > 0 {
        lemma_line_winner_exists(s.drop_last(), l);
        assert(forall|i: int| 0 <= i < s.len() - 1 ==> s.drop_last()[i] == #[trigger] s[i]);
        if s.last().1.range.end.line == l {
            assert(s[s.len() - 1] == s.last());
        } else {
            if exists|i: int| 0 <= i < s.len() && (#[trigger] s[i]).1.range.end.line == l {
                let w = choose|w: int| 0 <= w < s.len() && (#[trigger] s[w]).1.range.end.line == l;
                assert(w < s.len() - 1);
                assert(s.drop_last()[w] == s[w]);
            }
        }
    }
}

/// Collects the distinct end lines in first-encounter order.
fn collect_distinct_lines(diags: &Vec<(ServerId, Diagnostic)>) -> (r: Vec<u32>)
    ensures
        r@ == distinct_end_lines(diags@),
{
    let mut out: Vec<u32> = Vec::new();
    let mut i: usize = 0;
    proof {
        assert(diags@.take(0) =~= Seq::<(ServerId, Diagnostic)>::empty());
    }
    while i < diags.len()
        invariant
            i <= diags@.len(),
            out@ == distinct_end_lines(diags@.take(i as int)),
        decreases diags@.len() - i,
    {
        let l = diags[i].1.range.end.line;
        let mut seen = false;
        let mut j: usize = 0;
        while j < out.len()
            invariant
                j <= out@.len(),
                seen == exists|t: int| 0 <= t < j && out@[t] == l,
            decreases out@.len() - j,
        {
            if out[j] == l {
                seen = true;
            }
            j = j + 1;
        }
        proof {
            assert(seen == out@.contains(l));
            assert(diags@.take(i as int + 1).drop_last() =~= diags@.take(i as int));
            assert(diags@.take(i as int + 1).last() == diags@[i as int]);
        }
        if !seen {
            out.push(l);
        }
        i = i + 1;
    }
    proof {
        assert(diags@.take(diags@.len() as int) =~= diags@);
    }
    out
}

/// Renders the inlay option value.
fn render_inlay_diagnostics(
    diags: &Vec<(ServerId, Diagnostic)>,
    doc_lines: &Vec<Vec<char>>,
) -> (r: Vec<char>)
    requires
        diags@.len() < 0x1_0000_0000,
        forall|i: int| 0 <= i < diags@.len() ==> (#[trigger] diags@[i]).1.range.end.line
            < 0xffff_ffff,
        lines_fit(doc_lines@),
    ensures
        r@ == spec_inlay_diagnostics(diags@, doc_lines@),
{
    let distinct = collect_distinct_lines(diags);
    let mut tagged: Vec<(u64, u32)> = Vec::new();
    let mut i: usize = 0;
    while i < distinct.len()
        invariant
            i <= distinct@.len(),
            distinct@ == distinct_end_lines(diags@),
            tagged@ == line_tagged(distinct@).take(i as int),
        decreases distinct@.len() - i,
    {
        let l = distinct[i];
        tagged.push((l as u64, l));
        proof {
            assert(line_tagged(distinct@).take(i as int + 1) =~= line_tagged(distinct@).take(
                i as int,
            ).push(line_tagged(distinct@)[i as int]));
        }
        i = i + 1;
    }
    proof {
        assert(line_tagged(distinct@).take(distinct@.len() as int) =~= line_tagged(distinct@));
    }
    let sorted = crate::sorting::sort_pairs_by_key(tagged);
    let ghost sortedv = sort_by_key(line_tagged(distinct_end_lines(diags@)));
    proof {
        crate::sorting::lemma_sort_by_key_contains(line_tagged(distinct_end_lines(diags@)));
    }
    let ghost mapped = sortedv.map_values(
        |p: (u64, u32)| spec_inlay_entry(diags@, p.1, doc_lines@),
    );
    let mut pieces: Vec<Vec<char>> = Vec::new();
    let mut k: usize = 0;
    proof {
        assert(piece_views(pieces@) =~= mapped.take(0));
    }
    while k < sorted.len()
        invariant
            k <= sorted@.len(),
            sorted@ == sortedv,
            mapped == sortedv.map_values(
                |p: (u64, u32)| spec_inlay_entry(diags@, p.1, doc_lines@),
            ),
            forall|t: int|
                0 <= t < sortedv.len() ==> line_tagged(distinct_end_lines(diags@)).contains(
                    #[trigger] sortedv[t],
                ),
            diags@.len() < 0x1_0000_0000,
            forall|t: int| 0 <= t < diags@.len() ==> (#[trigger] diags@[t]).1.range.end.line
                < 0xffff_ffff,
            lines_fit(doc_lines@),
            piece_views(pieces@) == mapped.take(k as int),
        decreases sorted@.len() - k,
    {
        let l = sorted[k].1;
        proof {
            assert(line_tagged(distinct_end_lines(diags@)).contains(sortedv[k as int]));
            let w = choose|w: int|
                0 <= w < line_tagged(distinct_end_lines(diags@)).len() && line_tagged(
                    distinct_end_lines(diags@),
                )[w] == sortedv[k as int];
            assert(distinct_end_lines(diags@)[w] == l);
            assert(distinct_end_lines(diags@).contains(l));
            lemma_distinct_end_lines_exists(diags@, l);
            lemma_line_winner_exists(diags@, l);
            let e = choose|e: int|
                0 <= e < diags@.len() && (#[trigger] diags@[e]).1.range.end.line == l;
            assert(diags@[e].1.range.end.line < 0xffff_ffff);
        }
        let piece = render_inlay_entry(diags, l, doc_lines);
        let ghost prev = piece_views(pieces@);
        pieces.push(piece);
        proof {
            assert(piece_views(pieces@) =~= prev.push(mapped[k as int]));
            assert(mapped.take(k as int + 1) =~= mapped.take(k as int).push(mapped[k as int]));
        }
        k = k + 1;
    }
    proof {
        assert(mapped.take(sortedv.len() as int) =~= mapped);
    }
    join_pieces(&pieces, " ")
}

/// Renders one inlay entry for line `l`.
fn render_inlay_entry(
    diags: &Vec<(ServerId, Diagnostic)>,
    l: u32,
    doc_lines: &Vec<Vec<char>>,
) -> (r: Vec<char>)
    requires
        lines_fit(doc_lines@),
        l < 0xffff_ffff,
        line_winner(diags@, l) is Some,
    ensures
        r@ == spec_inlay_entry(diags@, l, doc_lines@),
{
    let mut out: Vec<char> = Vec::new();
    out.push('"');
    push_u32(&mut out, l + 1);
    out.push('.');
    let empty_line: Vec<char> = Vec::new();
    let line = crate::position::get_line(doc_lines, l as usize, &empty_line);
    let bl = crate::position::line_byte_length(line);
    let column: u32 = if bl >= 1 {
        bl
    } else {
        1
    };
    push_u32(&mut out, column);
    push_str(&mut out, "+0|%opt[lsp_inlay_diagnostic_gap]");
    // gutter signs, in cache order
    let mut i: usize = 0;
    let ghost base = out@;
    proof {
        assert(diags@.take(0) =~= Seq::<(ServerId, Diagnostic)>::empty());
        assert(base + line_symbols(diags@.take(0), l) =~= base);
    }
    while i < diags.len()
        invariant
            i <= diags@.len(),
            out@ == base + line_symbols(diags@.take(i as int), l),
        decreases diags@.len() - i,
    {
        proof {
            assert(diags@.take(i as int + 1).drop_last() =~= diags@.take(i as int));
            assert(diags@.take(i as int + 1).last() == diags@[i as int]);
        }
        if diags[i].1.range.end.line == l {
            out.push('{');
            push_str(&mut out, inlay_face(diags[i].1.severity));
            out.push('}');
            push_str(&mut out, "%opt[lsp_inlay_diagnostic_sign]");
            proof {
                assert(out@ =~= base + line_symbols(diags@.take(i as int + 1), l));
            }
        } else {
            proof {
                assert(out@ =~= base + line_symbols(diags@.take(i as int + 1), l));
            }
        }
        i = i + 1;
    }
    proof {
        assert(diags@.take(diags@.len() as int) =~= diags@);
    }
    // the winning message
    let mut winner: Option<usize> = Option::None;
    let mut j: usize = 0;
    proof {
        assert(diags@.take(0) =~= Seq::<(ServerId, Diagnostic)>::empty());
    }
    while j < diags.len()
        invariant
            j <= diags@.len(),
            match line_winner(diags@.take(j as int), l) {
                Option::None => winner is None,
                Option::Some(d) => winner is Some && winner->0 < j && diags@[winner->0 as int].1
                    == d,
            },
        decreases diags@.len() - j,
    {
        proof {
            assert(diags@.take(j as int + 1).drop_last() =~= diags@.take(j as int));
            assert(diags@.take(j as int + 1).last() == diags@[j as int]);
        }
        if diags[j].1.range.end.line == l {
            let take_it: bool = match winner {
                Option::None => true,
                Option::Some(w) => severity_class_exec(diags[j].1.severity)
                    < severity_class_exec(diags[w].1.severity),
            };
            if take_it {
                winner = Option::Some(j);
            }
        }
        j = j + 1;
    }
    proof {
        assert(diags@.take(diags@.len() as int) =~= diags@);
    }
    match winner {
        Option::Some(w) => {
            out.push(' ');
            out.push('{');
            push_str(&mut out, inlay_face(diags[w].1.severity));
            out.push('}');
            let message = crate::strutil::str_chars(diags[w].1.message.as_str());
            let mut first: Vec<char> = Vec::new();
            let mut t: usize = 0;
            proof {
                crate::parse::lemma_find_char(message@, '\n');
            }
            while t < message.len() && message[t] != '\n'
                invariant
                    t <= message@.len(),
                    forall|u: int| 0 <= u < t ==> message@[u] != '\n',
                    first@ == message@.take(t as int),
                decreases message@.len() - t,
            {
                proof {
                    assert(message@.take(t as int + 1) =~= message@.take(t as int).push(
                        message@[t as int],
                    ));
                }
                first.push(message[t]);
                t = t + 1;
            }
            proof {
                crate::parse::lemma_find_char(message@, '\n');
                assert(crate::parse::find_char(message@, '\n') == t as int) by {
                    let f = crate::parse::find_char(message@, '\n');
                    if f < t as int {
                        assert(message@[f] == '\n');
                    }
                    if f > t as int {
                        assert(t < message@.len());
                        assert(message@[t as int] == '\n');
                    }
                }
                assert(first@ == first_line_of(diags@[w as int].1.message@));
            }
            let escaped_markup = crate::escape::escape_backslashing(&first, '{');
            let escaped_tuple = crate::escape::escape_backslashing(&escaped_markup, '|');
            let mut escaped = crate::escape::escape_doubling(&escaped_tuple, '"');
            out.append(&mut escaped);
            out.push('"');
            proof {
                assert(out@ =~= spec_inlay_entry(diags@, l, doc_lines@));
            }
            out
        },
        Option::None => {
            proof {
                assert(false);
            }
            out
        },
    }
}

/// Lines of a merge come from one of the two streams.
proof fn lemma_merge_flags_lines(a: Seq<(u32, Seq<char>)>, b: Seq<(u32, Seq<char>)>)
    requires
        forall|t: int| 0 <= t < a.len() ==> (#[trigger] a[t]).0 < 0xffff_ffff,
        forall|t: int| 0 <= t < b.len() ==> (#[trigger] b[t]).0 < 0xffff_ffff,
    ensures
        forall|t: int|
            0 <= t < merge_flags(a, b).len() ==> (#[trigger] merge_flags(a, b)[t]).0 < 0xffff_ffff,
    decreases a.len() + b.len(),
{
    if a.len() == 0 || b.len() == 0 {
    } else {
        assert(forall|t: int|
            0 <= t < a.drop_first().len() ==> (#[trigger] a.drop_first()[t]).0 < 0xffff_ffff) by {
            assert(forall|t: int|
                0 <= t < a.drop_first().len() ==> a.drop_first()[t] == #[trigger] a[t + 1]);
        }
        assert(forall|t: int|
            0 <= t < b.drop_first().len() ==> (#[trigger] b.drop_first()[t]).0 < 0xffff_ffff) by {
            assert(forall|t: int|
                0 <= t < b.drop_first().len() ==> b.drop_first()[t] == #[trigger] b[t + 1]);
        }
        if a[0].0 < b[0].0 {
            lemma_merge_flags_lines(a.drop_first(), b);
            let rest = merge_flags(a.drop_first(), b);
            assert forall|t: int|
                0 <= t < merge_flags(a, b).len() implies (#[trigger] merge_flags(a, b)[t]).0
                < 0xffff_ffff by {
                if t == 0 {
                    assert(merge_flags(a, b)[0] == a[0]);
                } else {
                    assert(merge_flags(a, b)[t] == rest[t - 1]);
                }
            }
        } else if a[0].0 > b[0].0 {
            lemma_merge_flags_lines(a, b.drop_first());
            let rest = merge_flags(a, b.drop_first());
            assert forall|t: int|
                0 <= t < merge_flags(a, b).len() implies (#[trigger] merge_flags(a, b)[t]).0
                < 0xffff_ffff by {
                if t == 0 {
                    assert(merge_flags(a, b)[0] == b[0]);
                } else {
                    assert(merge_flags(a, b)[t] == rest[t - 1]);
                }
            }
        } else {
            lemma_merge_flags_lines(a.drop_first(), b.drop_first());
            let rest = merge_flags(a.drop_first(), b.drop_first());
            assert forall|t: int|
                0 <= t < merge_flags(a, b).len() implies (#[trigger] merge_flags(a, b)[t]).0
                < 0xffff_ffff by {
                if t == 0 {
                    assert(merge_flags(a, b)[0] == a[0]);
                } else {
                    assert(merge_flags(a, b)[t] == rest[t - 1]);
                }
            }
        }
    }
}


/// Computes `(line_flags, error_count, hint_count, info_count,
/// warning_count)` for a buffer: the merged diagnostic and code-lens line
/// flags, and the cache's cardinalities by severity class.
pub fn gather_line_flags(
    diagnostics: &Vec<(ServerId, Diagnostic)>,
    lenses: &Vec<(ServerId, CodeLens)>,
) -> (r: (String, u32, u32, u32, u32))
    requires
        diags_fit(diagnostics@),
        lens_lines_fit(lenses@),
    ensures
        r.0@ == spec_line_flags(diagnostics@, lenses@),
        r.1 == count_class(diagnostics@, 1),
        r.2 == count_class(diagnostics@, 4),
        r.3 == count_class(diagnostics@, 3),
        r.4 == count_class(diagnostics@, 2),
{
    let (flags, e, h, i, w) = line_flags_and_counts(diagnostics, lenses);
    (crate::strutil::chars_to_string(&flags), e, h, i, w)
}

/// The body of the publish render: the four count options, the inline
/// highlights, the line flags (re-quoted so the editor expands `%opt`
/// tokens), and the inlay texts, all pinned to the version captured at
/// dispatch time.
pub open spec fn spec_diagnostics_body(
    s: Seq<(ServerId, Diagnostic)>,
    lenses: Seq<(ServerId, CodeLens)>,
    regs: Seq<crate::types::ServerSettings>,
    lines: Seq<Vec<char>>,
    version: u32,
) -> Seq<char> {
    "set-option buffer lsp_diagnostic_error_count "@ + dec_digits(count_class(s, 1) as nat)
        + "; set-option buffer lsp_diagnostic_hint_count "@ + dec_digits(count_class(s, 4) as nat)
        + "; set-option buffer lsp_diagnostic_info_count "@ + dec_digits(count_class(s, 3) as nat)
        + "; set-option buffer lsp_diagnostic_warning_count "@ + dec_digits(
        count_class(s, 2) as nat,
    ) + "; set-option buffer lsp_inline_diagnostics "@ + dec_digits(version as nat) + seq![' ']
        + spec_inline_diagnostics(s, regs, lines)
        + "; evaluate-commands \"set-option buffer lsp_diagnostic_lines "@ + dec_digits(
        version as nat,
    ) + seq![' '] + spec_line_flags(s, lenses)
        + " '0|%opt[lsp_diagnostic_line_error_sign]'\"; set-option buffer lsp_inlay_diagnostics "@
        + dec_digits(version as nat) + seq![' '] + spec_inlay_diagnostics(s, lines)
}

/// A rendered publish: the one buffer-scoped script of this publish, and
/// the counts it carries.
pub struct DiagnosticsRender {
    pub command: String,
    pub error_count: u32,
    pub hint_count: u32,
    pub info_count: u32,
    pub warning_count: u32,
}

/// Renders a publish for `buffile`: one script per publish, carrying the
/// severity counts of the cache, the inline ranges, the line flags and the
/// inlay texts, all under the document's version. Yields nothing when the
/// buffer is not open.
pub fn publish_diagnostics(
    buffile: &str,
    diagnostics: &Vec<(ServerId, Diagnostic)>,
    lenses: &Vec<(ServerId, CodeLens)>,
    document: Option<&crate::types::Document>,
    registry: &crate::types::ServerRegistry,
) -> (r: Option<DiagnosticsRender>)
    requires
        diags_wf(diagnostics@, registry.servers@.len() as int),
        lens_lines_fit(lenses@),
        match document {
            Option::Some(doc) => lines_fit(doc.lines@) && doc.version >= 0,
            Option::None => true,
        },
    ensures
        r is Some <==> document is Some,
        match (r, document) {
            (Option::Some(render), Option::Some(doc)) => {
                &&& render.command@ == buffer_envelope_seq(
                    buffile@,
                    spec_diagnostics_body(
                        diagnostics@,
                        lenses@,
                        registry.servers@,
                        doc.lines@,
                        doc.version as u32,
                    ),
                )
                &&& render.error_count == count_class(diagnostics@, 1)
                &&& render.hint_count == count_class(diagnostics@, 4)
                &&& render.info_count == count_class(diagnostics@, 3)
                &&& render.warning_count == count_class(diagnostics@, 2)
            },
            (Option::None, Option::None) => true,
            _ => false,
        },
{
    let doc = match document {
        Option::Some(doc) => doc,
        Option::None => {
            return Option::None;
        },
    };
    let version: u32 = doc.version as u32;
    let inline = render_inline_diagnostics(diagnostics, registry, &doc.lines);
    let (flags, error_count, hint_count, info_count, warning_count) = line_flags_and_counts(
        diagnostics,
        lenses,
    );
    let inlay = render_inlay_diagnostics(diagnostics, &doc.lines);
    let mut body = crate::strutil::str_chars("set-option buffer lsp_diagnostic_error_count ");
    push_u32(&mut body, error_count);
    push_str(&mut body, "; set-option buffer lsp_diagnostic_hint_count ");
    push_u32(&mut body, hint_count);
    push_str(&mut body, "; set-option buffer lsp_diagnostic_info_count ");
    push_u32(&mut body, info_count);
    push_str(&mut body, "; set-option buffer lsp_diagnostic_warning_count ");
    push_u32(&mut body, warning_count);
    push_str(&mut body, "; set-option buffer lsp_inline_diagnostics ");
    push_u32(&mut body, version);
    body.push(' ');
    push_chars(&mut body, &inline);
    push_str(&mut body, "; evaluate-commands \"set-option buffer lsp_diagnostic_lines ");
    push_u32(&mut body, version);
    body.push(' ');
    push_chars(&mut body, &flags);
    push_str(
        &mut body,
        " '0|%opt[lsp_diagnostic_line_error_sign]'\"; set-option buffer lsp_inlay_diagnostics ",
    );
    push_u32(&mut body, version);
    body.push(' ');
    push_chars(&mut body, &inlay);
    proof {
        assert(body@ =~= spec_diagnostics_body(
            diagnostics@,
            lenses@,
            registry.servers@,
            doc.lines@,
            version,
        ));
    }
    let env = buffer_envelope(buffile, &body);
    Option::Some(
        DiagnosticsRender {
            command: crate::strutil::chars_to_string(&env),
            error_count,
            hint_count,
            info_count,
            warning_count,
        },
    )
}

/// The cache entries that do not belong to `server`, in order.
pub open spec fn spec_without_server(s: Seq<(ServerId, Diagnostic)>, server: ServerId) -> Seq<
    (ServerId, Diagnostic),
>
    decreases s.len(),
{
    if s.len() == 0 {
        Seq::empty()
    } else {
        spec_without_server(s.drop_last(), server) + if s.last().0 != server {
            seq![s.last()]
        } else {
            Seq::empty()
        }
    }
}

/// A publish from `server` replaces exactly that server's slice of the
/// buffer's cache: the other servers' entries stay, in order, and the new
/// entries follow.
pub fn replace_diagnostics(
    cache: Vec<(ServerId, Diagnostic)>,
    server: ServerId,
    new: Vec<Diagnostic>,
) -> (r: Vec<(ServerId, Diagnostic)>)
    ensures
        r@ == spec_without_server(cache@, server) + new@.map_values(
            |d: Diagnostic| (server, d),
        ),
{
    let ghost cache0 = cache@;
    let ghost new0 = new@;
    let mut out: Vec<(ServerId, Diagnostic)> = Vec::new();
    let mut rest = cache;
    let ghost mut i: int = 0;
    proof {
        assert(cache0.take(0) =~= Seq::<(ServerId, Diagnostic)>::empty());
        assert(cache0.skip(0) =~= cache0);
        assert(out@ =~= spec_without_server(cache0.take(0), server));
    }
    while rest.len() > 0
        invariant
            0 <= i <= cache0.len(),
            rest@ == cache0.skip(i),
            out@ == spec_without_server(cache0.take(i), server),
        decreases rest@.len(),
    {
        let e = rest.remove(0);
        proof {
            assert(e == cache0[i]);
            assert(rest@ =~= cache0.skip(i + 1));
            assert(cache0.take(i + 1).drop_last() =~= cache0.take(i));
            assert(cache0.take(i + 1).last() == cache0[i]);
        }
        if e.0 != server {
            let ghost prev = out@;
            out.push(e);
            proof {
                assert(out@ =~= prev + seq![cache0[i]]);
            }
        } else {
            proof {
                assert(out@ =~= out@ + Seq::<(ServerId, Diagnostic)>::empty());
            }
        }
        proof {
            i = i + 1;
        }
    }
    proof {
        assert(cache0.take(cache0.len() as int) =~= cache0);
    }
    let ghost others = spec_without_server(cache0, server);
    let mut fresh = new;
    let ghost mut j: int = 0;
    proof {
        assert(new0.skip(0) =~= new0);
        assert(out@ =~= others + new0.map_values(|d: Diagnostic| (server, d)).take(0));
    }
    while fresh.len() > 0
        invariant
            0 <= j <= new0.len(),
            fresh@ == new0.skip(j),
            out@ == others + new0.map_values(|d: Diagnostic| (server, d)).take(j),
        decreases fresh@.len(),
    {
        let d = fresh.remove(0);
        proof {
            assert(d == new0[j]);
            assert(fresh@ =~= new0.skip(j + 1));
        }
        let ghost prev = out@;
        out.push((server, d));
        proof {
            let mapped = new0.map_values(|d: Diagnostic| (server, d));
            assert(mapped.take(j + 1) =~= mapped.take(j).push(mapped[j]));
            assert(mapped[j] == (server, new0[j]));
            assert(out@ =~= others + mapped.take(j + 1));
            j = j + 1;
        }
    }
    proof {
        let mapped = new0.map_values(|d: Diagnostic| (server, d));
        assert(mapped.take(new0.len() as int) =~= mapped);
    }
    out
}

/// Related-information positions leave room for the 1-based fallback.
pub open spec fn related_fit(s: Seq<(ServerId, Diagnostic)>) -> bool {
    forall|i: int, j: int|
        0 <= i < s.len() && 0 <= j < s[i].1.related_information@.len() ==> ((
        #[trigger] s[i].1.related_information@[j]).position.line < 0xffff_ffff
            && s[i].1.related_information@[j].position.character < 0xffff_ffff)
}

/// One related-information line: the file (shortened against the main
/// server's root), the position under the owning server's encoding when
/// the file is at hand (a best-effort 1-based fallback otherwise), the
/// server's name and the message.
pub open spec fn spec_related_line(
    info: crate::types::RelatedInformation,
    server: ServerId,
    regs: Seq<crate::types::ServerSettings>,
    files: Seq<(String, Vec<Vec<char>>)>,
    main_root: Seq<char>,
) -> Seq<char> {
    let pos = match crate::types::lookup_file(files, info.filename@) {
        Option::Some(lines) => crate::position::lsp_position_to_editor_spec(
            info.position,
            lines,
            regs[server as int].offset_encoding,
        ),
        Option::None => crate::types::EditorPosition {
            line: (info.position.line + 1) as u32,
            column: (info.position.character + 1) as u32,
        },
    };
    crate::strutil::spec_short_path(info.filename@, main_root) + seq![':'] + dec_digits(
        pos.line as nat,
    ) + seq![':'] + dec_digits(pos.column as nat) + ": ("@ + regs[server as int].name@ + ") "@
        + info.message@
}

/// The related-information block of a diagnostic: nothing when there is
/// none, else a newline and the related lines joined by newlines.
pub open spec fn spec_related_block(
    e: (ServerId, Diagnostic),
    regs: Seq<crate::types::ServerSettings>,
    files: Seq<(String, Vec<Vec<char>>)>,
    main_root: Seq<char>,
) -> Seq<char> {
    if e.1.related_information@.len() == 0 {
        Seq::empty()
    } else {
        "\n"@ + join_with(
            e.1.related_information@.map_values(
                |info: crate::types::RelatedInformation| spec_related_line(
                    info,
                    e.0,
                    regs,
                    files,
                    main_root,
                ),
            ),
            "\n"@,
        )
    }
}

/// One list-view line: file (shortened against the owning server's
/// root), position (translated under that server's encoding when the
/// file's text is at hand, a best-effort 1-based fallback otherwise),
/// severity word, message and the related block.
pub open spec fn spec_diag_line(
    filename: Seq<char>,
    e: (ServerId, Diagnostic),
    regs: Seq<crate::types::ServerSettings>,
    files: Seq<(String, Vec<Vec<char>>)>,
    main_root: Seq<char>,
) -> Seq<char> {
    let enc = regs[e.0 as int].offset_encoding;
    let pos = spec_located_position(filename, e.1.range.start, files, enc);
    crate::strutil::spec_short_path(filename, regs[e.0 as int].root_path@) + seq![':']
        + dec_digits(pos.line as nat) + seq![':'] + dec_digits(pos.column as nat) + ": "@
        + spec_severity_word(e.1.severity) + ": "@ + e.1.message@ + spec_related_block(
        e,
        regs,
        files,
        main_root,
    )
}

/// The list-view lines of one buffer's cache, in cache order.
pub open spec fn buffer_diag_lines(
    filename: Seq<char>,
    entries: Seq<(ServerId, Diagnostic)>,
    regs: Seq<crate::types::ServerSettings>,
    files: Seq<(String, Vec<Vec<char>>)>,
    main_root: Seq<char>,
) -> Seq<Seq<char>>
    decreases entries.len(),
{
    if entries.len() == 0 {
        Seq::empty()
    } else {
        buffer_diag_lines(filename, entries.drop_last(), regs, files, main_root).push(
            spec_diag_line(filename, entries.last(), regs, files, main_root),
        )
    }
}

/// The list-view lines of the whole cache, buffer by buffer.
pub open spec fn all_diag_lines(
    all: Seq<(String, Vec<(ServerId, Diagnostic)>)>,
    regs: Seq<crate::types::ServerSettings>,
    files: Seq<(String, Vec<Vec<char>>)>,
    main_root: Seq<char>,
) -> Seq<Seq<char>>
    decreases all.len(),
{
    if all.len() == 0 {
        Seq::empty()
    } else {
        all_diag_lines(all.drop_last(), regs, files, main_root) + buffer_diag_lines(
            all.last().0@,
            all.last().1@,
            regs,
            files,
            main_root,
        )
    }
}

/// The whole diagnostics list view: the main server's root and the lines,
/// both quoted.
pub open spec fn spec_editor_diagnostics(
    all: Seq<(String, Vec<(ServerId, Diagnostic)>)>,
    regs: Seq<crate::types::ServerSettings>,
    files: Seq<(String, Vec<Vec<char>>)>,
) -> Seq<char> {
    "lsp-show-diagnostics "@ + editor_quote_seq(regs[0].root_path@) + seq![' ']
        + editor_quote_seq(
        join_with(all_diag_lines(all, regs, files, regs[0].root_path@), "\n"@),
    )
}

/// Renders the related-information block of one diagnostic.
fn render_related_block(
    d: &Diagnostic,
    server: ServerId,
    registry: &crate::types::ServerRegistry,
    files: &crate::types::FileContents,
    main_root: &String,
) -> (r: Vec<char>)
    requires
        server < registry.servers@.len(),
        files_fit(files.files@),
        forall|j: int|
            0 <= j < d.related_information@.len() ==> ((
            #[trigger] d.related_information@[j]).position.line < 0xffff_ffff
                && d.related_information@[j].position.character < 0xffff_ffff),
    ensures
        r@ == spec_related_block((server, *d), registry.servers@, files.files@, main_root@),
{
    if d.related_information.len() == 0 {
        let r: Vec<char> = Vec::new();
        proof {
            assert(r@ =~= Seq::<char>::empty());
        }
        return r;
    }
    let ghost mapped = d.related_information@.map_values(
        |info: crate::types::RelatedInformation| spec_related_line(
            info,
            server,
            registry.servers@,
            files.files@,
            main_root@,
        ),
    );
    let mut pieces: Vec<Vec<char>> = Vec::new();
    let mut j: usize = 0;
    proof {
        assert(piece_views(pieces@) =~= mapped.take(0));
    }
    while j < d.related_information.len()
        invariant
            j <= d.related_information@.len(),
            server < registry.servers@.len(),
            files_fit(files.files@),
            forall|t: int|
                0 <= t < d.related_information@.len() ==> ((
                #[trigger] d.related_information@[t]).position.line < 0xffff_ffff
                    && d.related_information@[t].position.character < 0xffff_ffff),
            mapped == d.related_information@.map_values(
                |info: crate::types::RelatedInformation| spec_related_line(
                    info,
                    server,
                    registry.servers@,
                    files.files@,
                    main_root@,
                ),
            ),
            piece_views(pieces@) == mapped.take(j as int),
        decreases d.related_information@.len() - j,
    {
        let info = &d.related_information[j];
        let pos = match files.get(info.filename.as_str()) {
            Option::Some(lines) => {
                proof {
                    crate::types::lemma_lookup_file_from_entry(files.files@, info.filename@);
                }
                crate::position::lsp_position_to_editor(
                    info.position,
                    lines,
                    registry.get(server).offset_encoding,
                )
            },
            Option::None => crate::types::EditorPosition {
                line: info.position.line + 1,
                column: info.position.character + 1,
            },
        };
        let short = crate::strutil::short_file_path(info.filename.as_str(), main_root.as_str());
        let mut piece: Vec<char> = Vec::new();
        push_str(&mut piece, short.as_str());
        piece.push(':');
        push_u32(&mut piece, pos.line);
        piece.push(':');
        push_u32(&mut piece, pos.column);
        push_str(&mut piece, ": (");
        push_str(&mut piece, registry.get(server).name.as_str());
        push_str(&mut piece, ") ");
        push_str(&mut piece, info.message.as_str());
        let ghost prev = piece_views(pieces@);
        proof {
            assert(piece@ =~= mapped[j as int]);
        }
        pieces.push(piece);
        proof {
            assert(piece_views(pieces@) =~= prev.push(mapped[j as int]));
            assert(mapped.take(j as int + 1) =~= mapped.take(j as int).push(mapped[j as int]));
        }
        j = j + 1;
    }
    proof {
        assert(mapped.take(mapped.len() as int) =~= mapped);
    }
    let mut out: Vec<char> = Vec::new();
    push_str(&mut out, "\n");
    let mut joined = join_pieces(&pieces, "\n");
    out.append(&mut joined);
    proof {
        assert(out@ =~= spec_related_block(
            (server, *d),
            registry.servers@,
            files.files@,
            main_root@,
        ));
    }
    out
}

/// Formats a diagnostic's related information as indented list lines, or
/// nothing when it has none.
pub fn format_related_information(
    d: &Diagnostic,
    server: ServerId,
    registry: &crate::types::ServerRegistry,
    files: &crate::types::FileContents,
    main_root: &String,
) -> (r: Option<String>)
    requires
        server < registry.servers@.len(),
        files_fit(files.files@),
        forall|j: int|
            0 <= j < d.related_information@.len() ==> ((
            #[trigger] d.related_information@[j]).position.line < 0xffff_ffff
                && d.related_information@[j].position.character < 0xffff_ffff),
    ensures
        r is Some <==> d.related_information@.len() > 0,
        r is Some ==> r->0@ == spec_related_block(
            (server, *d),
            registry.servers@,
            files.files@,
            main_root@,
        ),
{
    if d.related_information.len() == 0 {
        return Option::None;
    }
    let block = render_related_block(d, server, registry, files, main_root);
    Option::Some(crate::strutil::chars_to_string(&block))
}

/// Renders one list-view line.
fn render_diag_line(
    filename: &String,
    server: ServerId,
    d: &Diagnostic,
    registry: &crate::types::ServerRegistry,
    files: &crate::types::FileContents,
    main_root: &String,
) -> (r: Vec<char>)
    requires
        server < registry.servers@.len(),
        files_fit(files.files@),
        d.range.start.line < 0xffff_ffff,
        d.range.start.character < 0xffff_ffff,
        forall|j: int|
            0 <= j < d.related_information@.len() ==> ((
            #[trigger] d.related_information@[j]).position.line < 0xffff_ffff
                && d.related_information@[j].position.character < 0xffff_ffff),
    ensures
        r@ == spec_diag_line(
            filename@,
            (server, *d),
            registry.servers@,
            files.files@,
            main_root@,
        ),
{
    let enc = registry.get(server).offset_encoding;
    let pos = match files.get(filename.as_str()) {
        Option::Some(lines) => {
            proof {
                crate::types::lemma_lookup_file_from_entry(files.files@, filename@);
            }
            crate::position::lsp_position_to_editor(d.range.start, lines, enc)
        },
        Option::None => crate::types::EditorPosition {
            line: d.range.start.line + 1,
            column: d.range.start.character + 1,
        },
    };
    let short = crate::strutil::short_file_path(
        filename.as_str(),
        registry.get(server).root_path.as_str(),
    );
    let mut out: Vec<char> = Vec::new();
    push_str(&mut out, short.as_str());
    out.push(':');
    push_u32(&mut out, pos.line);
    out.push(':');
    push_u32(&mut out, pos.column);
    push_str(&mut out, ": ");
    push_str(&mut out, severity_word(d.severity));
    push_str(&mut out, ": ");
    push_str(&mut out, d.message.as_str());
    let mut related = render_related_block(d, server, registry, files, main_root);
    out.append(&mut related);
    proof {
        assert(out@ =~= spec_diag_line(
            filename@,
            (server, *d),
            registry.servers@,
            files.files@,
            main_root@,
        ));
    }
    out
}

/// Renders the whole diagnostics list view: every buffer's cached
/// diagnostics as `file:line:col: severity: message` lines (with related
/// information indented below), quoted behind the main server's root.
pub fn editor_diagnostics(
    all: &Vec<(String, Vec<(ServerId, Diagnostic)>)>,
    registry: &crate::types::ServerRegistry,
    files: &crate::types::FileContents,
) -> (r: String)
    requires
        registry.servers@.len() > 0,
        files_fit(files.files@),
        forall|b: int|
            0 <= b < all@.len() ==> diags_wf(
                (#[trigger] all@[b]).1@,
                registry.servers@.len() as int,
            ),
        forall|b: int| 0 <= b < all@.len() ==> related_fit((#[trigger] all@[b]).1@),
    ensures
        r@ == spec_editor_diagnostics(all@, registry.servers@, files.files@),
{
    let ghost main_rootv = registry.servers@[0].root_path@;
    let mut pieces: Vec<Vec<char>> = Vec::new();
    let mut b: usize = 0;
    proof {
        assert(all@.take(0) =~= Seq::<(String, Vec<(ServerId, Diagnostic)>)>::empty());
        assert(piece_views(pieces@) =~= all_diag_lines(
            all@.take(0),
            registry.servers@,
            files.files@,
            main_rootv,
        ));
    }
    while b < all.len()
        invariant
            b <= all@.len(),
            registry.servers@.len() > 0,
            main_rootv == registry.servers@[0].root_path@,
            files_fit(files.files@),
            forall|t: int|
                0 <= t < all@.len() ==> diags_wf(
                    (#[trigger] all@[t]).1@,
                    registry.servers@.len() as int,
                ),
            forall|t: int| 0 <= t < all@.len() ==> related_fit((#[trigger] all@[t]).1@),
            piece_views(pieces@) == all_diag_lines(
                all@.take(b as int),
                registry.servers@,
                files.files@,
                main_rootv,
            ),
        decreases all@.len() - b,
    {
        let main_root = registry.main().root_path.clone();
        let ghost entriesv = all@[b as int].1@;
        let ghost base = piece_views(pieces@);
        let mut e: usize = 0;
        proof {
            assert(entriesv.take(0) =~= Seq::<(ServerId, Diagnostic)>::empty());
            assert(base + buffer_diag_lines(
                all@[b as int].0@,
                entriesv.take(0),
                registry.servers@,
                files.files@,
                main_rootv,
            ) =~= base);
        }
        while e < all[b].1.len()
            invariant
                b < all@.len(),
                e <= entriesv.len(),
                entriesv == all@[b as int].1@,
                main_root@ == main_rootv,
                registry.servers@.len() > 0,
                main_rootv == registry.servers@[0].root_path@,
                files_fit(files.files@),
                forall|t: int|
                    0 <= t < all@.len() ==> diags_wf(
                        (#[trigger] all@[t]).1@,
                        registry.servers@.len() as int,
                    ),
                forall|t: int| 0 <= t < all@.len() ==> related_fit((#[trigger] all@[t]).1@),
                piece_views(pieces@) == base + buffer_diag_lines(
                    all@[b as int].0@,
                    entriesv.take(e as int),
                    registry.servers@,
                    files.files@,
                    main_rootv,
                ),
            decreases entriesv.len() - e,
        {
            proof {
                assert(diags_wf(all@[b as int].1@, registry.servers@.len() as int));
                assert(related_fit(all@[b as int].1@));
                assert(entriesv[e as int] == all@[b as int].1@[e as int]);
            }
            let entry_server = all[b].1[e].0;
            let piece = render_diag_line(
                &all[b].0,
                entry_server,
                &all[b].1[e].1,
                registry,
                files,
                &main_root,
            );
            let ghost prev = piece_views(pieces@);
            pieces.push(piece);
            proof {
                assert(entriesv.take(e as int + 1).drop_last() =~= entriesv.take(e as int));
                assert(entriesv.take(e as int + 1).last() == entriesv[e as int]);
                assert((entry_server, all@[b as int].1@[e as int].1) == entriesv[e as int]);
                assert(piece_views(pieces@) =~= prev.push(
                    spec_diag_line(
                        all@[b as int].0@,
                        entriesv[e as int],
                        registry.servers@,
                        files.files@,
                        main_rootv,
                    ),
                ));
            }
            e = e + 1;
        }
        proof {
            assert(entriesv.take(entriesv.len() as int) =~= entriesv);
            assert(all@.take(b as int + 1).drop_last() =~= all@.take(b as int));
            assert(all@.take(b as int + 1).last() == all@[b as int]);
        }
        b = b + 1;
    }
    proof {
        assert(all@.take(all@.len() as int) =~= all@);
    }
    let content = join_pieces(&pieces, "\n");
    let mut out = crate::strutil::str_chars("lsp-show-diagnostics ");
    let root_chars = crate::strutil::str_chars(registry.main().root_path.as_str());
    out.push('\'');
    let mut quoted_root = crate::escape::escape_doubling(&root_chars, '\'');
    out.append(&mut quoted_root);
    out.push('\'');
    out.push(' ');
    out.push('\'');
    let mut quoted_content = crate::escape::escape_doubling(&content, '\'');
    out.append(&mut quoted_content);
    out.push('\'');
    proof {
        assert(out@ =~= spec_editor_diagnostics(all@, registry.servers@, files.files@));
    }
    crate::strutil::chars_to_string(&out)
}

/// The counted classes are cardinalities: `count_class` is the length of
/// the cache filtered to that class. With the render's ensures this pins
/// the emitted count options to the cache's cardinalities by severity,
/// and the render is a single script per publish by construction.
pub proof fn lemma_count_class_is_cardinality(s: Seq<(ServerId, Diagnostic)>, c: u32)
    ensures
        count_class(s, c) == s.filter(
            |e: (ServerId, Diagnostic)| severity_class(e.1.severity) == c,
        ).len(),
    decreases s.len(),
{
    reveal(Seq::filter);
    if s.len() > 0 {
        lemma_count_class_is_cardinality(s.drop_last(), c);
    }
}

/// The severity class that wins a line's flag: the most severe (smallest)
/// class among the diagnostics starting on that line.
pub open spec fn best_flag_class(s: Seq<(ServerId, Diagnostic)>, l: u32) -> Option<u32>
    decreases s.len(),
{
    if s.len() == 0 {
        Option::None
    } else {
        let b = best_flag_class(s.drop_last(), l);
        if s.last().1.range.start.line != l {
            b
        } else {
            match b {
                Option::None => Option::Some(severity_class(s.last().1.severity)),
                Option::Some(p) => if severity_class(s.last().1.severity) < p {
                    Option::Some(severity_class(s.last().1.severity))
                } else {
                    b
                },
            }
        }
    }
}

/// The winner is at most the class of any diagnostic on the line.
proof fn lemma_best_flag_class_min(s: Seq<(ServerId, Diagnostic)>, l: u32, i: int)
    requires
        0 <= i < s.len(),
        s[i].1.range.start.line == l,
    ensures
        best_flag_class(s, l) is Some,
        best_flag_class(s, l)->0 <= severity_class(s[i].1.severity),
    decreases s.len(),
{
    if i == s.len() - 1 {
        assert(s[i] == s.last());
    } else {
        assert(s.drop_last()[i] == s[i]);
        lemma_best_flag_class_min(s.drop_last(), l, i);
    }
}

/// Some cached diagnostic starts on line `l`.
pub open spec fn line_has_flag(s: Seq<(ServerId, Diagnostic)>, l: u32) -> bool {
    exists|t: int| 0 <= t < s.len() && (#[trigger] s[t]).1.range.start.line == l
}

/// Adding a diagnostic to a line that already carries one of equal or
/// higher severity changes neither the winning severity class of that
/// line's flag (hence its label) nor the set of flagged lines.
pub proof fn lemma_line_flag_winner_preserved(
    s: Seq<(ServerId, Diagnostic)>,
    d: (ServerId, Diagnostic),
    l: u32,
    i: int,
)
    requires
        d.1.range.start.line == l,
        0 <= i < s.len(),
        s[i].1.range.start.line == l,
        severity_class(s[i].1.severity) <= severity_class(d.1.severity),
    ensures
        best_flag_class(s.push(d), l) == best_flag_class(s, l),
        forall|l2: u32| #[trigger] line_has_flag(s.push(d), l2) <==> line_has_flag(s, l2) || l2 == l,
{
    lemma_best_flag_class_min(s, l, i);
    assert(s.push(d).drop_last() =~= s);
    assert(s.push(d).last() == d);
    assert forall|l2: u32| #[trigger] line_has_flag(s.push(d), l2) <==> line_has_flag(s, l2) || l2
        == l by {
        if line_has_flag(s.push(d), l2) {
            let t = choose|t: int|
                0 <= t < s.push(d).len() && (#[trigger] s.push(d)[t]).1.range.start.line == l2;
            if t < s.len() {
                assert(s[t].1.range.start.line == l2);
            } else {
                assert(s.push(d)[t] == d);
            }
        }
        if l2 == l {
            assert(s.push(d)[s.len() as int] == d);
            assert((s.push(d)[s.len() as int]).1.range.start.line == l2);
            assert(line_has_flag(s.push(d), l2));
        }
        if line_has_flag(s, l2) {
            let t = choose|t: int| 0 <= t < s.len() && (#[trigger] s[t]).1.range.start.line == l2;
            assert((s.push(d)[t]).1.range.start.line == l2);
            assert(line_has_flag(s.push(d), l2));
        }
    }
}

/// The winning severity class is visible in the emitted flag stream: some
/// flag entry of line `l` carries exactly the winning class's label. With
/// `lemma_line_flag_winner_preserved` this ties the preserved winner to
/// `gather_line_flags`' output.
pub proof fn lemma_winning_label_in_flag_stream(s: Seq<(ServerId, Diagnostic)>, l: u32)
    requires
        best_flag_class(s, l) is Some,
    ensures
        exists|t: int|
            0 <= t < diag_flag_entries(s).len() && (#[trigger] diag_flag_entries(s)[t]).0 == l
                && diag_flag_entries(s)[t].1 == spec_line_flag_label(
                Option::Some(best_flag_class(s, l)->0),
            ),
    decreases s.len(),
{
    let d = diag_flag_entries(s);
    let d0 = diag_flag_entries(s.drop_last());
    let b = best_flag_class(s, l);
    let b0 = best_flag_class(s.drop_last(), l);
    if s.last().1.range.start.line == l && (b0 is None || b != b0) {
        // the last diagnostic is the new winner
        let c = severity_class(s.last().1.severity);
        assert(b == Option::Some(c));
        assert(d[d.len() - 1] == (l, spec_line_flag_label(s.last().1.severity)));
        assert(spec_line_flag_label(s.last().1.severity) == spec_line_flag_label(
            Option::Some(c),
        )) by {
            match s.last().1.severity {
                Option::Some(_) => {},
                Option::None => {},
            }
        }
    } else {
        // the winner was already among the earlier diagnostics
        assert(b == b0);
        lemma_winning_label_in_flag_stream(s.drop_last(), l);
        let t = choose|t: int|
            0 <= t < d0.len() && (#[trigger] d0[t]).0 == l && d0[t].1 == spec_line_flag_label(
                Option::Some(b0->0),
            );
        assert(d[t] == d0[t]);
    }
}

/// The versioned diagnostic options of one buffer, as the editor holds
/// them.
pub ghost struct BufferDiagnosticOptions {
    pub error_count: int,
    pub hint_count: int,
    pub info_count: int,
    pub warning_count: int,
    pub inline_version: int,
    pub inline_diagnostics: Seq<char>,
    pub lines_version: int,
    pub diagnostic_lines: Seq<char>,
    pub inlay_version: int,
    pub inlay_diagnostics: Seq<char>,
}

/// What one publish render does to the buffer's options: every option it
/// touches is overwritten whole, keyed by the captured version.
pub open spec fn apply_diagnostics_render(
    opts: BufferDiagnosticOptions,
    error_count: int,
    hint_count: int,
    info_count: int,
    warning_count: int,
    version: int,
    inline: Seq<char>,
    line_flags: Seq<char>,
    inlay: Seq<char>,
) -> BufferDiagnosticOptions {
    BufferDiagnosticOptions {
        error_count,
        hint_count,
        info_count,
        warning_count,
        inline_version: version,
        inline_diagnostics: inline,
        lines_version: version,
        diagnostic_lines: line_flags,
        inlay_version: version,
        inlay_diagnostics: inlay,
    }
}

/// Re-emitting the same render is observationally equivalent to emitting
/// it once: every option a render sets is a total overwrite, so applying
/// a render twice leaves the editor's options exactly as applying it once
/// does.
pub proof fn lemma_render_idempotent(
    opts: BufferDiagnosticOptions,
    error_count: int,
    hint_count: int,
    info_count: int,
    warning_count: int,
    version: int,
    inline: Seq<char>,
    line_flags: Seq<char>,
    inlay: Seq<char>,
)
    ensures
        apply_diagnostics_render(
            apply_diagnostics_render(
                opts,
                error_count,
                hint_count,
                info_count,
                warning_count,
                version,
                inline,
                line_flags,
                inlay,
            ),
            error_count,
            hint_count,
            info_count,
            warning_count,
            version,
            inline,
            line_flags,
            inlay,
        ) == apply_diagnostics_render(
            opts,
            error_count,
            hint_count,
            info_count,
            warning_count,
            version,
            inline,
            line_flags,
            inlay,
        ),
{
}

} // verus!


