//! The code-lens cache and its renderers.
//!
//! A batch reply replaces the buffer's lens cache, sorted by start
//! position; each lens renders as an inlay label, and lens line marks are
//! re-merged into the shared line-flag stream. A user request resolves
//! the first unresolved lens touching the selection, then performs the
//! touching lenses innermost-first.

use vstd::prelude::*;

use crate::code_action::spec_execute_command_command;
use crate::diagnostics::diags_fit;
use crate::diagnostics::spec_line_flags;
use crate::dispatch::Feature;
use crate::escape::buffer_envelope;
use crate::escape::buffer_envelope_seq;
use crate::escape::editor_quote_seq;
use crate::escape::escape_kakoune_markup_seq;
use crate::escape::escape_tuple_element_seq;
use crate::position::spec_pos_le;
use crate::position::spec_ranges_touch_same_line;
use crate::position::lines_fit;
use crate::sorting::sort_by_key;
use crate::strutil::dec_digits;
use crate::strutil::join_with;
use crate::strutil::join_pieces;
use crate::strutil::piece_views;
use crate::strutil::push_chars;
use crate::strutil::push_str;
use crate::strutil::push_u32;
use crate::types::CodeLens;
use crate::types::Diagnostic;
use crate::types::Document;
use crate::types::EditorMeta;
use crate::types::LspPosition;
use crate::types::LspRange;
use crate::types::ServerId;
use crate::types::ServerRegistry;

verus! {

/// The selection options of a lens request.
pub struct CodeLensOptions {
    pub selection_desc: String,
}

/// The lens entry point: the consulted servers that advertise the
/// lens capability, in registry order.
pub fn text_document_code_lens(meta: &EditorMeta, registry: &ServerRegistry) -> (r: Vec<ServerId>)
    ensures
        forall|k: int|
            0 <= k < r@.len() ==> crate::dispatch::spec_eligible(
                registry,
                meta,
                Feature::CodeLens,
                #[trigger] r@[k],
            ),
        forall|k1: int, k2: int| 0 <= k1 < k2 < r@.len() ==> r@[k1] < r@[k2],
        forall|id: ServerId|
            crate::dispatch::spec_eligible(registry, meta, Feature::CodeLens, id) ==> r@.contains(
                id,
            ),
{
    crate::dispatch::eligible_servers(registry, meta, Feature::CodeLens)
}

/// Document order of a position packed into one ascending key.
pub open spec fn pos_key(p: LspPosition) -> u64 {
    (p.line as u64 * 0x1_0000_0000 + p.character as u64) as u64
}

/// All lenses of a batch, flattened in batch order.
pub open spec fn spec_flatten_lenses(results: Seq<(ServerId, Option<Vec<CodeLens>>)>) -> Seq<
    (ServerId, CodeLens),
>
    decreases results.len(),
{
    if results.len() == 0 {
        Seq::empty()
    } else {
        spec_flatten_lenses(results.drop_last()) + (match results.last().1 {
            Option::Some(v) => v@.map_values(|lens: CodeLens| (results.last().0, lens)),
            Option::None => Seq::empty(),
        })
    }
}

/// Each lens tagged with its start-position key.
pub open spec fn lens_tagged(s: Seq<(ServerId, CodeLens)>) -> Seq<(u64, (ServerId, CodeLens))> {
    Seq::new(s.len(), |i: int| (pos_key(s[i].1.range.start), s[i]))
}

/// The batch's lenses in cache order: stably sorted by start position.
pub open spec fn spec_sorted_lenses(results: Seq<(ServerId, Option<Vec<CodeLens>>)>) -> Seq<
    (u64, (ServerId, CodeLens)),
> {
    sort_by_key(lens_tagged(spec_flatten_lenses(results)))
}

/// The new cache contents.
pub open spec fn spec_lens_cache(results: Seq<(ServerId, Option<Vec<CodeLens>>)>) -> Seq<
    (ServerId, CodeLens),
> {
    spec_sorted_lenses(results).map_values(|p: (u64, (ServerId, CodeLens))| p.1)
}

/// After any cache update the lenses are sorted by `range.start`
/// ascending.
pub proof fn lemma_code_lens_cache_sorted(results: Seq<(ServerId, Option<Vec<CodeLens>>)>)
    ensures
        forall|i: int, j: int|
            0 <= i < j < spec_lens_cache(results).len() ==> spec_pos_le(
                (#[trigger] spec_lens_cache(results)[i]).1.range.start,
                (#[trigger] spec_lens_cache(results)[j]).1.range.start,
            ),
{
    let flat = spec_flatten_lenses(results);
    let lt = lens_tagged(flat);
    crate::sorting::lemma_sort_by_key_sorted(lt);
    crate::sorting::lemma_sort_by_key_contains(lt);
    let sorted = sort_by_key(lt);
    let cache = spec_lens_cache(results);
    assert forall|i: int, j: int|
        0 <= i < j < cache.len() implies spec_pos_le(
        (#[trigger] cache[i]).1.range.start,
        (#[trigger] cache[j]).1.range.start,
    ) by {
        assert(sorted[i].0 <= sorted[j].0);
        assert(lt.contains(sorted[i]));
        assert(lt.contains(sorted[j]));
        let wi = choose|w: int| 0 <= w < lt.len() && lt[w] == sorted[i];
        let wj = choose|w: int| 0 <= w < lt.len() && lt[w] == sorted[j];
        assert(sorted[i].0 == pos_key(sorted[i].1.1.range.start));
        assert(sorted[j].0 == pos_key(sorted[j].1.1.range.start));
        assert(cache[i] == sorted[i].1);
        assert(cache[j] == sorted[j].1);
        let a = sorted[i].1.1.range.start;
        let b = sorted[j].1.1.range.start;
        assert(pos_key(a) <= pos_key(b));
        assert(spec_pos_le(a, b)) by {
            if a.line > b.line {
                assert(a.line as u64 * 0x1_0000_0000 >= (b.line as u64 + 1) * 0x1_0000_0000);
            } else if a.line == b.line && a.character > b.character {
            }
        }
    }
}

/// One rendered lens inlay: the 1-based line, the indicator and the
/// escaped label (the command's title when resolved, nothing otherwise),
/// quoted as one editor argument.
pub open spec fn spec_lens_entry(e: (ServerId, CodeLens), indicator: Seq<char>) -> Seq<char> {
    let label = match e.1.command {
        Option::Some(c) => c.title@,
        Option::None => Seq::empty(),
    };
    editor_quote_seq(
        dec_digits((e.1.range.start.line + 1) as nat) + "|{InlayCodeLens}["@ + indicator
            + seq![' '] + escape_tuple_element_seq(escape_kakoune_markup_seq(label)) + "] "@,
    )
}

/// The inlay option value: all cached lenses in cache order.
pub open spec fn spec_inlay_code_lenses(
    results: Seq<(ServerId, Option<Vec<CodeLens>>)>,
    indicator: Seq<char>,
) -> Seq<char> {
    join_with(
        spec_sorted_lenses(results).map_values(
            |p: (u64, (ServerId, CodeLens))| spec_lens_entry(p.1, indicator),
        ),
        " "@,
    )
}

/// The body of the lens render: the re-merged line flags (re-quoted so
/// the editor expands `%opt` tokens) and the lens inlays, both under the
/// captured version.
pub open spec fn spec_code_lens_body(
    results: Seq<(ServerId, Option<Vec<CodeLens>>)>,
    diagnostics: Seq<(ServerId, Diagnostic)>,
    indicator: Seq<char>,
    version: u32,
) -> Seq<char> {
    "evaluate-commands \"set-option buffer lsp_diagnostic_lines "@ + dec_digits(version as nat)
        + seq![' '] + spec_line_flags(diagnostics, spec_lens_cache(results))
        + " '0|%opt[lsp_diagnostic_line_error_sign]'\"\nset-option buffer lsp_inlay_code_lenses "@
        + dec_digits(version as nat) + seq![' '] + spec_inlay_code_lenses(results, indicator)
}

/// Every lens line of the batch leaves room for the 1-based convention.
pub open spec fn lens_results_fit(results: Seq<(ServerId, Option<Vec<CodeLens>>)>) -> bool {
    forall|i: int, j: int|
        0 <= i < results.len() && results[i].1 is Some && 0 <= j < results[i].1->0@.len() ==> (
        #[trigger] results[i].1->0@[j]).range.start.line < 0xffff_ffff
}

proof fn lemma_flatten_lenses_fit(results: Seq<(ServerId, Option<Vec<CodeLens>>)>)
    requires
        lens_results_fit(results),
    ensures
        forall|i: int|
            0 <= i < spec_flatten_lenses(results).len() ==> (
            #[trigger] spec_flatten_lenses(results)[i]).1.range.start.line < 0xffff_ffff,
    decreases results.len(),
{
    if results.len() > 0 {
        assert(forall|i: int|
            0 <= i < results.drop_last().len() ==> results.drop_last()[i] == #[trigger] results[i]);
        assert(lens_results_fit(results.drop_last())) by {
            assert forall|i: int, j: int|
                0 <= i < results.drop_last().len() && results.drop_last()[i].1 is Some && 0 <= j
                    < results.drop_last()[i].1->0@.len() implies (
            #[trigger] results.drop_last()[i].1->0@[j]).range.start.line < 0xffff_ffff by {
                assert(results.drop_last()[i] == results[i]);
                assert(results[i].1->0@[j] == results.drop_last()[i].1->0@[j]);
            }
        }
        lemma_flatten_lenses_fit(results.drop_last());
        let f = spec_flatten_lenses(results);
        let f0 = spec_flatten_lenses(results.drop_last());
        assert(results[results.len() - 1] == results.last());
        assert forall|i: int|
            0 <= i < f.len() implies (#[trigger] f[i]).1.range.start.line < 0xffff_ffff by {
            if i < f0.len() {
                assert(f[i] == f0[i]);
            } else {
                match results.last().1 {
                    Option::Some(v) => {
                        let mapped = v@.map_values(
                            |lens: CodeLens| (results.last().0, lens),
                        );
                        assert(f[i] == mapped[i - f0.len()]);
                        assert(mapped[i - f0.len()].1 == v@[i - f0.len()]);
                        assert(results[results.len() - 1].1->0@[i - f0.len()] == v@[i - f0.len()]);
                    },
                    Option::None => {},
                }
            }
        }
    }
}

/// Sorted lens entries keep the batch's lines.
proof fn lemma_sorted_lenses_fit(results: Seq<(ServerId, Option<Vec<CodeLens>>)>)
    requires
        lens_results_fit(results),
    ensures
        forall|t: int|
            0 <= t < spec_sorted_lenses(results).len() ==> (
            #[trigger] spec_sorted_lenses(results)[t]).1.1.range.start.line < 0xffff_ffff,
        spec_sorted_lenses(results).len() == spec_flatten_lenses(results).len(),
{
    lemma_flatten_lenses_fit(results);
    let flat = spec_flatten_lenses(results);
    let lt = lens_tagged(flat);
    crate::sorting::lemma_sort_by_key_contains(lt);
    assert forall|t: int|
        0 <= t < spec_sorted_lenses(results).len() implies (
    #[trigger] spec_sorted_lenses(results)[t]).1.1.range.start.line < 0xffff_ffff by {
        assert(lt.contains(spec_sorted_lenses(results)[t]));
        let w = choose|w: int| 0 <= w < lt.len() && lt[w] == spec_sorted_lenses(results)[t];
        assert(lt[w].1 == flat[w]);
    }
}

/// Builds the new cache: the batch's lenses sorted by start position.
fn build_lens_cache(results: Vec<(ServerId, Option<Vec<CodeLens>>)>) -> (r: Vec<
    (u64, (ServerId, CodeLens)),
>)
    ensures
        r@ == spec_sorted_lenses(results@),
{
    let ghost results0 = results@;
    let mut flat: Vec<(ServerId, CodeLens)> = Vec::new();
    let mut rest = results;
    let ghost mut i: int = 0;
    proof {
        assert(results0.take(0) =~= Seq::<(ServerId, Option<Vec<CodeLens>>)>::empty());
        assert(results0.skip(0) =~= results0);
        assert(flat@ =~= spec_flatten_lenses(results0.take(0)));
    }
    while rest.len() > 0
        invariant
            0 <= i <= results0.len(),
            rest@ == results0.skip(i),
            flat@ == spec_flatten_lenses(results0.take(i)),
        decreases rest@.len(),
    {
        let (sid, answer) = rest.remove(0);
        proof {
            assert((sid, answer) == results0[i]);
            assert(rest@ =~= results0.skip(i + 1));
            assert(results0.take(i + 1).drop_last() =~= results0.take(i));
            assert(results0.take(i + 1).last() == results0[i]);
        }
        match answer {
            Option::Some(v) => {
                let ghost v0 = v@;
                let ghost base = flat@;
                let mut items = v;
                let ghost mut j: int = 0;
                proof {
                    assert(v0.skip(0) =~= v0);
                    assert(flat@ =~= base + v0.map_values(|lens: CodeLens| (sid, lens)).take(0));
                }
                while items.len() > 0
                    invariant
                        0 <= j <= v0.len(),
                        items@ == v0.skip(j),
                        flat@ == base + v0.map_values(|lens: CodeLens| (sid, lens)).take(j),
                    decreases items@.len(),
                {
                    let lens = items.remove(0);
                    proof {
                        assert(lens == v0[j]);
                        assert(items@ =~= v0.skip(j + 1));
                    }
                    flat.push((sid, lens));
                    proof {
                        let mapped = v0.map_values(|lens: CodeLens| (sid, lens));
                        assert(mapped.take(j + 1) =~= mapped.take(j).push(mapped[j]));
                        assert(mapped[j] == (sid, v0[j]));
                        assert(flat@ =~= base + mapped.take(j + 1));
                        j = j + 1;
                    }
                }
                proof {
                    let mapped = v0.map_values(|lens: CodeLens| (sid, lens));
                    assert(mapped.take(v0.len() as int) =~= mapped);
                    assert(flat@ =~= spec_flatten_lenses(results0.take(i + 1)));
                }
            },
            Option::None => {
                proof {
                    assert(flat@ =~= spec_flatten_lenses(results0.take(i + 1)));
                }
            },
        }
        proof {
            i = i + 1;
        }
    }
    proof {
        assert(results0.take(results0.len() as int) =~= results0);
    }
    let ghost flat0 = flat@;
    let mut tagged: Vec<(u64, (ServerId, CodeLens))> = Vec::new();
    let mut rest2 = flat;
    let ghost mut k: int = 0;
    proof {
        assert(flat0.skip(0) =~= flat0);
        assert(tagged@ =~= lens_tagged(flat0).take(0));
    }
    while rest2.len() > 0
        invariant
            0 <= k <= flat0.len(),
            rest2@ == flat0.skip(k),
            tagged@ == lens_tagged(flat0).take(k),
        decreases rest2@.len(),
    {
        let e = rest2.remove(0);
        proof {
            assert(e == flat0[k]);
            assert(rest2@ =~= flat0.skip(k + 1));
        }
        let start = e.1.range.start;
        let key: u64 = (start.line as u64) * 0x1_0000_0000u64 + (start.character as u64);
        tagged.push((key, e));
        proof {
            let lt = lens_tagged(flat0);
            assert(lt.take(k + 1) =~= lt.take(k).push(lt[k]));
            assert(lt[k] == (pos_key(flat0[k].1.range.start), flat0[k]));
            k = k + 1;
        }
    }
    proof {
        assert(lens_tagged(flat0).take(flat0.len() as int) =~= lens_tagged(flat0));
    }
    crate::sorting::sort_pairs_by_key(tagged)
}

/// The lens continuation: replaces the buffer's cache with the sorted
/// batch and renders the inlays and the re-merged line flags; with the
/// buffer closed, the cache entry is dropped and nothing is rendered.
pub fn editor_code_lens(
    results: Vec<(ServerId, Option<Vec<CodeLens>>)>,
    buffile: &str,
    diagnostics: &Vec<(ServerId, Diagnostic)>,
    document: Option<&Document>,
    indicator: &str,
) -> (r: (Option<Vec<(ServerId, CodeLens)>>, Option<String>))
    requires
        diags_fit(diagnostics@),
        lens_results_fit(results@),
        match document {
            Option::Some(doc) => doc.version >= 0,
            Option::None => true,
        },
    ensures
        r.0 is Some <==> document is Some,
        r.1 is Some <==> document is Some,
        r.0 is Some ==> r.0->0@ == spec_lens_cache(results@),
        match (r.1, document) {
            (Option::Some(cmd), Option::Some(doc)) => cmd@ == buffer_envelope_seq(
                buffile@,
                spec_code_lens_body(results@, diagnostics@, indicator@, doc.version as u32),
            ),
            (Option::None, Option::None) => true,
            _ => false,
        },
{
    let ghost results0 = results@;
    let sorted = build_lens_cache(results);
    proof {
        lemma_sorted_lenses_fit(results0);
    }
    let doc = match document {
        Option::Some(doc) => doc,
        Option::None => {
            return (Option::None, Option::None);
        },
    };
    let version: u32 = doc.version as u32;
    // render the inlays
    let ghost mapped = spec_sorted_lenses(results0).map_values(
        |p: (u64, (ServerId, CodeLens))| spec_lens_entry(p.1, indicator@),
    );
    let mut pieces: Vec<Vec<char>> = Vec::new();
    let mut k: usize = 0;
    proof {
        assert(piece_views(pieces@) =~= mapped.take(0));
    }
    while k < sorted.len()
        invariant
            k <= sorted@.len(),
            sorted@ == spec_sorted_lenses(results0),
            forall|t: int|
                0 <= t < sorted@.len() ==> (#[trigger] sorted@[t]).1.1.range.start.line
                    < 0xffff_ffff,
            mapped == spec_sorted_lenses(results0).map_values(
                |p: (u64, (ServerId, CodeLens))| spec_lens_entry(p.1, indicator@),
            ),
            piece_views(pieces@) == mapped.take(k as int),
        decreases sorted@.len() - k,
    {
        let lens = &sorted[k].1.1;
        let mut inner: Vec<char> = Vec::new();
        push_u32(&mut inner, lens.range.start.line + 1);
        push_str(&mut inner, "|{InlayCodeLens}[");
        push_str(&mut inner, indicator);
        push_str(&mut inner, " ");
        let label_chars: Vec<char> = match &lens.command {
            Option::Some(c) => crate::strutil::str_chars(c.title.as_str()),
            Option::None => Vec::new(),
        };
        let marked = crate::escape::escape_backslashing(&label_chars, '{');
        let mut tupled = crate::escape::escape_backslashing(&marked, '|');
        inner.append(&mut tupled);
        push_str(&mut inner, "] ");
        let mut piece: Vec<char> = Vec::new();
        piece.push('\'');
        let mut quoted = crate::escape::escape_doubling(&inner, '\'');
        piece.append(&mut quoted);
        piece.push('\'');
        let ghost prev = piece_views(pieces@);
        proof {
            assert(seq![' '] =~= " "@) by {
                reveal_strlit(" ");
            }
            assert(piece@ =~= spec_lens_entry(sorted@[k as int].1, indicator@));
        }
        pieces.push(piece);
        proof {
            assert(piece_views(pieces@) =~= prev.push(mapped[k as int]));
            assert(mapped.take(k as int + 1) =~= mapped.take(k as int).push(mapped[k as int]));
        }
        k = k + 1;
    }
    proof {
        assert(mapped.take(mapped.len() as int) =~= mapped);
    }
    let inlays = join_pieces(&pieces, " ");
    // strip the keys into the cache
    let ghost sortedv = sorted@;
    let mut cache: Vec<(ServerId, CodeLens)> = Vec::new();
    let mut rest = sorted;
    let ghost mut c: int = 0;
    proof {
        assert(sortedv.skip(0) =~= sortedv);
        assert(cache@ =~= sortedv.map_values(|p: (u64, (ServerId, CodeLens))| p.1).take(0));
    }
    while rest.len() > 0
        invariant
            0 <= c <= sortedv.len(),
            rest@ == sortedv.skip(c),
            cache@ == sortedv.map_values(|p: (u64, (ServerId, CodeLens))| p.1).take(c),
        decreases rest@.len(),
    {
        let e = rest.remove(0);
        proof {
            assert(e == sortedv[c]);
            assert(rest@ =~= sortedv.skip(c + 1));
        }
        cache.push(e.1);
        proof {
            let stripped = sortedv.map_values(|p: (u64, (ServerId, CodeLens))| p.1);
            assert(stripped.take(c + 1) =~= stripped.take(c).push(stripped[c]));
            assert(stripped[c] == sortedv[c].1);
            c = c + 1;
        }
    }
    proof {
        let stripped = sortedv.map_values(|p: (u64, (ServerId, CodeLens))| p.1);
        assert(stripped.take(sortedv.len() as int) =~= stripped);
        assert(cache@ == spec_lens_cache(results0));
        assert forall|t: int|
            0 <= t < cache@.len() implies (#[trigger] cache@[t]).1.range.start.line
            < 0xffff_ffff by {
            assert(cache@[t] == sortedv[t].1);
        }
    }
    let (flags, _e, _h, _i, _w) = crate::diagnostics::gather_line_flags(diagnostics, &cache);
    let mut body = crate::strutil::str_chars(
        "evaluate-commands \"set-option buffer lsp_diagnostic_lines ",
    );
    push_u32(&mut body, version);
    push_str(&mut body, " ");
    push_str(&mut body, flags.as_str());
    push_str(
        &mut body,
        " '0|%opt[lsp_diagnostic_line_error_sign]'\"\nset-option buffer lsp_inlay_code_lenses ",
    );
    push_u32(&mut body, version);
    push_str(&mut body, " ");
    push_chars(&mut body, &inlays);
    proof {
        assert(seq![' '] =~= " "@) by {
            reveal_strlit(" ");
        }
        assert(body@ =~= spec_code_lens_body(results0, diagnostics@, indicator@, version));
    }
    let env = buffer_envelope(buffile, &body);
    (Option::Some(cache), Option::Some(crate::strutil::chars_to_string(&env)))
}

/// A lens touches the selection when their ranges share a line, under
/// the owning server's encoding.
pub open spec fn lens_touches(
    e: (ServerId, CodeLens),
    selection_desc: Seq<char>,
    lines: Seq<Vec<char>>,
    regs: Seq<crate::types::ServerSettings>,
) -> bool {
    spec_ranges_touch_same_line(
        e.1.range,
        crate::code_action::spec_selection_lsp_range(
            selection_desc,
            lines,
            regs[e.0 as int].offset_encoding,
        ),
    )
}

/// The index of the first cached lens that touches the selection and is
/// still unresolved, or the cache length.
pub open spec fn first_unresolved_index(
    lenses: Seq<(ServerId, CodeLens)>,
    selection_desc: Seq<char>,
    lines: Seq<Vec<char>>,
    regs: Seq<crate::types::ServerSettings>,
) -> int
    decreases lenses.len(),
{
    if lenses.len() == 0 {
        0
    } else if lens_touches(lenses[0], selection_desc, lines, regs) && lenses[0].1.command
        is None {
        0
    } else {
        1 + first_unresolved_index(lenses.drop_first(), selection_desc, lines, regs)
    }
}

proof fn lemma_first_unresolved_index(
    lenses: Seq<(ServerId, CodeLens)>,
    selection_desc: Seq<char>,
    lines: Seq<Vec<char>>,
    regs: Seq<crate::types::ServerSettings>,
)
    ensures
        0 <= first_unresolved_index(lenses, selection_desc, lines, regs) <= lenses.len(),
        first_unresolved_index(lenses, selection_desc, lines, regs) < lenses.len()
            ==> lens_touches(
            lenses[first_unresolved_index(lenses, selection_desc, lines, regs)],
            selection_desc,
            lines,
            regs,
        ) && lenses[first_unresolved_index(lenses, selection_desc, lines, regs)].1.command
            is None,
        forall|i: int|
            0 <= i < first_unresolved_index(lenses, selection_desc, lines, regs) ==> !(
            lens_touches(#[trigger] lenses[i], selection_desc, lines, regs)
                && lenses[i].1.command is None),
    decreases lenses.len(),
{
    if lenses.len() > 0 && !(lens_touches(lenses[0], selection_desc, lines, regs)
        && lenses[0].1.command is None) {
        lemma_first_unresolved_index(lenses.drop_first(), selection_desc, lines, regs);
        assert forall|i: int|
            0 <= i < first_unresolved_index(lenses, selection_desc, lines, regs) implies !(
        lens_touches(#[trigger] lenses[i], selection_desc, lines, regs) && lenses[i].1.command
            is None) by {
            if i > 0 {
                assert(lenses.drop_first()[i - 1] == lenses[i]);
            }
        }
    }
}

/// The nesting height of a lens range; malformed ranges count as flat.
pub open spec fn height_key(r: LspRange) -> u64 {
    if r.end.line >= r.start.line {
        (r.end.line - r.start.line) as u64
    } else {
        0
    }
}

/// The touching lenses, as `(height, cache index)` pairs in cache order.
pub open spec fn touching_tagged(
    lenses: Seq<(ServerId, CodeLens)>,
    selection_desc: Seq<char>,
    lines: Seq<Vec<char>>,
    regs: Seq<crate::types::ServerSettings>,
) -> Seq<(u64, usize)>
    decreases lenses.len(),
{
    if lenses.len() == 0 {
        Seq::empty()
    } else {
        let p = touching_tagged(lenses.drop_last(), selection_desc, lines, regs);
        if lens_touches(lenses.last(), selection_desc, lines, regs) {
            p.push((height_key(lenses.last().1.range), (lenses.len() - 1) as usize))
        } else {
            p
        }
    }
}

/// The touching lenses innermost-first: stably sorted by nesting height.
pub open spec fn spec_innermost_order(
    lenses: Seq<(ServerId, CodeLens)>,
    selection_desc: Seq<char>,
    lines: Seq<Vec<char>>,
    regs: Seq<crate::types::ServerSettings>,
) -> Seq<(u64, usize)> {
    sort_by_key(touching_tagged(lenses, selection_desc, lines, regs))
}

/// One `(title, execute-command)` pair per resolved lens of the order.
pub open spec fn spec_perform_entries(
    lenses: Seq<(ServerId, CodeLens)>,
    order: Seq<(u64, usize)>,
    regs: Seq<crate::types::ServerSettings>,
) -> Seq<Seq<char>>
    decreases order.len(),
{
    if order.len() == 0 {
        Seq::empty()
    } else {
        let p = spec_perform_entries(lenses, order.drop_last(), regs);
        let e = lenses[order.last().1 as int];
        match e.1.command {
            Option::Some(c) => p.push(
                editor_quote_seq(c.title@) + seq![' '] + editor_quote_seq(
                    spec_execute_command_command(regs[e.0 as int].name@, c, false),
                ),
            ),
            Option::None => p,
        }
    }
}

/// The `lsp-perform-code-lens` script for the ordered lenses.
pub open spec fn spec_perform_command(
    lenses: Seq<(ServerId, CodeLens)>,
    order: Seq<(u64, usize)>,
    regs: Seq<crate::types::ServerSettings>,
) -> Seq<char> {
    "lsp-perform-code-lens "@ + join_with(spec_perform_entries(lenses, order, regs), " "@)
}

/// What a lens request resolves to.
pub enum CodeLensAction {
    /// The buffer is unknown: silently do nothing.
    Nothing,
    /// Resolve this cache entry with its owning server, then come back.
    Resolve { server: ServerId, index: usize },
    /// Show this error to the user.
    Error(String),
    /// Send this `lsp-perform-code-lens` script to the editor.
    Perform(String),
}

/// Lens cache entries' ids point into the registry.
pub open spec fn lens_ids_wf(lenses: Seq<(ServerId, CodeLens)>, n_servers: int) -> bool {
    forall|i: int| 0 <= i < lenses.len() ==> (#[trigger] lenses[i]).0 < n_servers
}

/// Tagged indices point into the cache.
proof fn lemma_touching_tagged_indices(
    lenses: Seq<(ServerId, CodeLens)>,
    selection_desc: Seq<char>,
    lines: Seq<Vec<char>>,
    regs: Seq<crate::types::ServerSettings>,
)
    ensures
        forall|t: int|
            0 <= t < touching_tagged(lenses, selection_desc, lines, regs).len() ==> (
            #[trigger] touching_tagged(lenses, selection_desc, lines, regs)[t]).1 < lenses.len(),
    decreases lenses.len(),
{
    if lenses.len() > 0 {
        lemma_touching_tagged_indices(lenses.drop_last(), selection_desc, lines, regs);
        let p = touching_tagged(lenses.drop_last(), selection_desc, lines, regs);
        let w = touching_tagged(lenses, selection_desc, lines, regs);
        assert forall|t: int| 0 <= t < w.len() implies (#[trigger] w[t]).1 < lenses.len() by {
            if t < p.len() {
                assert(w[t] == p[t]);
            }
        }
    }
}

/// Renders the `lsp-perform-code-lens` script for an order of cache
/// indices.
fn render_perform_command(
    lenses: &Vec<(ServerId, CodeLens)>,
    order: &Vec<(u64, usize)>,
    registry: &ServerRegistry,
) -> (r: String)
    requires
        lens_ids_wf(lenses@, registry.servers@.len() as int),
        forall|t: int| 0 <= t < order@.len() ==> (#[trigger] order@[t]).1 < lenses@.len(),
    ensures
        r@ == spec_perform_command(lenses@, order@, registry.servers@),
{
    let mut pieces: Vec<Vec<char>> = Vec::new();
    let mut k: usize = 0;
    proof {
        assert(order@.take(0) =~= Seq::<(u64, usize)>::empty());
        assert(piece_views(pieces@) =~= spec_perform_entries(lenses@, order@.take(0), registry.servers@));
    }
    while k < order.len()
        invariant
            k <= order@.len(),
            lens_ids_wf(lenses@, registry.servers@.len() as int),
            forall|t: int| 0 <= t < order@.len() ==> (#[trigger] order@[t]).1 < lenses@.len(),
            piece_views(pieces@) == spec_perform_entries(
                lenses@,
                order@.take(k as int),
                registry.servers@,
            ),
        decreases order@.len() - k,
    {
        let idx = order[k].1;
        proof {
            assert(order@.take(k as int + 1).drop_last() =~= order@.take(k as int));
            assert(order@.take(k as int + 1).last() == order@[k as int]);
        }
        match &lenses[idx].1.command {
            Option::Some(c) => {
                let title_quoted = crate::escape::editor_quote(c.title.as_str());
                let cmd = crate::code_action::execute_command_editor_command(
                    registry.get(lenses[idx].0).name.as_str(),
                    c,
                    false,
                );
                let cmd_quoted = crate::escape::editor_quote(cmd.as_str());
                let mut piece: Vec<char> = Vec::new();
                push_str(&mut piece, title_quoted.as_str());
                push_str(&mut piece, " ");
                push_str(&mut piece, cmd_quoted.as_str());
                let ghost prev = piece_views(pieces@);
                proof {
                    assert(seq![' '] =~= " "@) by {
                        reveal_strlit(" ");
                    }
                }
                pieces.push(piece);
                proof {
                    assert(piece_views(pieces@) =~= prev.push(piece@));
                    assert(piece@ =~= editor_quote_seq(c.title@) + seq![' '] + editor_quote_seq(
                        spec_execute_command_command(
                            registry.servers@[lenses@[idx as int].0 as int].name@,
                            *c,
                            false,
                        ),
                    ));
                }
            },
            Option::None => {
                proof {
                    assert(piece_views(pieces@) =~= spec_perform_entries(
                        lenses@,
                        order@.take(k as int + 1),
                        registry.servers@,
                    ));
                }
            },
        }
        k = k + 1;
    }
    proof {
        assert(order@.take(order@.len() as int) =~= order@);
    }
    let joined = join_pieces(&pieces, " ");
    let mut out = crate::strutil::str_chars("lsp-perform-code-lens ");
    let mut j = joined;
    out.append(&mut j);
    proof {
        assert(out@ =~= spec_perform_command(lenses@, order@, registry.servers@));
    }
    crate::strutil::chars_to_string(&out)
}

/// A user lens request: resolve the first lens that touches the
/// selection and is still unresolved; when every touching lens is
/// resolved, perform them innermost-first, or report that none touches
/// the selection.
pub fn resolve_and_perform_code_lens(
    meta: &EditorMeta,
    params: &CodeLensOptions,
    lenses: &Vec<(ServerId, CodeLens)>,
    document: Option<&Document>,
    registry: &ServerRegistry,
) -> (r: CodeLensAction)
    requires
        crate::parse::valid_range_desc(params.selection_desc@),
        crate::parse::range_desc_value(params.selection_desc@).start.line >= 1,
        crate::parse::range_desc_value(params.selection_desc@).start.column >= 1,
        crate::parse::range_desc_value(params.selection_desc@).end.line >= 1,
        crate::parse::range_desc_value(params.selection_desc@).end.column >= 1,
        lens_ids_wf(lenses@, registry.servers@.len() as int),
        match document {
            Option::Some(doc) => lines_fit(doc.lines@),
            Option::None => true,
        },
    ensures
        r is Nothing <==> document is None,
        match document {
            Option::None => true,
            Option::Some(doc) => {
                let lines = doc.lines@;
                let regs = registry.servers@;
                let sel = params.selection_desc@;
                let fui = first_unresolved_index(lenses@, sel, lines, regs);
                if fui < lenses@.len() {
                    r == (CodeLensAction::Resolve {
                        server: lenses@[fui].0,
                        index: fui as usize,
                    })
                } else {
                    let order = spec_innermost_order(lenses@, sel, lines, regs);
                    if order.len() == 0 {
                        r is Error && r->Error_0@ == "no code lens in selection"@
                    } else {
                        r is Perform && r->Perform_0@ == spec_perform_command(
                            lenses@,
                            order,
                            regs,
                        )
                    }
                }
            },
        },
{
    let doc = match document {
        Option::Some(doc) => doc,
        Option::None => {
            return CodeLensAction::Nothing;
        },
    };
    let er = match crate::parse::parse_kakoune_range(params.selection_desc.as_str()) {
        Option::Some(er) => er,
        Option::None => {
            proof {
                assert(false);
            }
            return CodeLensAction::Nothing;
        },
    };
    let ghost sel = params.selection_desc@;
    let ghost lines = doc.lines@;
    let ghost regs = registry.servers@;
    proof {
        lemma_first_unresolved_index(lenses@, sel, lines, regs);
    }
    // first touching, still unresolved lens
    let mut i: usize = 0;
    let mut first_touch: Option<usize> = Option::None;
    while i < lenses.len() && first_touch.is_none()
        invariant
            i <= lenses@.len(),
            er == crate::parse::range_desc_value(sel),
            er.start.line >= 1 && er.start.column >= 1 && er.end.line >= 1 && er.end.column >= 1,
            lines_fit(lines),
            lines == doc.lines@,
            regs == registry.servers@,
            lens_ids_wf(lenses@, regs.len() as int),
            match first_touch {
                Option::None => forall|j: int|
                    0 <= j < i ==> !(lens_touches(#[trigger] lenses@[j], sel, lines, regs)
                        && lenses@[j].1.command is None),
                Option::Some(t) => t < lenses@.len() && t as int == first_unresolved_index(
                    lenses@,
                    sel,
                    lines,
                    regs,
                ),
            },
        decreases lenses@.len() - i + (if first_touch is None {
            1int
        } else {
            0int
        }),
    {
        let enc = registry.get(lenses[i].0).offset_encoding;
        let sel_lsp = crate::position::editor_range_to_lsp(&er, &doc.lines, enc);
        proof {
            assert(sel_lsp == crate::code_action::spec_selection_lsp_range(sel, lines, enc));
        }
        if crate::position::ranges_touch_same_line(lenses[i].1.range, sel_lsp)
            && lenses[i].1.command.is_none() {
            proof {
                lemma_first_unresolved_index(lenses@, sel, lines, regs);
                let f = first_unresolved_index(lenses@, sel, lines, regs);
                if f < i as int {
                    assert(!(lens_touches(lenses@[f], sel, lines, regs) && lenses@[f].1.command
                        is None));
                }
                assert(lens_touches(lenses@[i as int], sel, lines, regs));
            }
            first_touch = Option::Some(i);
        } else {
            i = i + 1;
        }
    }
    proof {
        if first_touch is None {
            lemma_first_unresolved_index(lenses@, sel, lines, regs);
            let f = first_unresolved_index(lenses@, sel, lines, regs);
            if f < lenses@.len() {
                assert(!(lens_touches(lenses@[f], sel, lines, regs) && lenses@[f].1.command
                    is None));
            }
        }
    }
    match first_touch {
        Option::Some(t) => {
            return CodeLensAction::Resolve { server: lenses[t].0, index: t };
        },
        Option::None => {},
    }
    // collect the touching lenses with their nesting height
    let mut tagged: Vec<(u64, usize)> = Vec::new();
    let mut k: usize = 0;
    proof {
        assert(lenses@.take(0) =~= Seq::<(ServerId, CodeLens)>::empty());
        assert(tagged@ =~= touching_tagged(lenses@.take(0), sel, lines, regs));
    }
    while k < lenses.len()
        invariant
            k <= lenses@.len(),
            er == crate::parse::range_desc_value(sel),
            er.start.line >= 1 && er.start.column >= 1 && er.end.line >= 1 && er.end.column >= 1,
            lines_fit(lines),
            lines == doc.lines@,
            regs == registry.servers@,
            lens_ids_wf(lenses@, regs.len() as int),
            tagged@ == touching_tagged(lenses@.take(k as int), sel, lines, regs),
            forall|t: int| 0 <= t < tagged@.len() ==> (#[trigger] tagged@[t]).1 < k,
        decreases lenses@.len() - k,
    {
        proof {
            assert(lenses@.take(k as int + 1).drop_last() =~= lenses@.take(k as int));
            assert(lenses@.take(k as int + 1).last() == lenses@[k as int]);
        }
        let enc = registry.get(lenses[k].0).offset_encoding;
        let sel_lsp = crate::position::editor_range_to_lsp(&er, &doc.lines, enc);
        proof {
            assert(sel_lsp == crate::code_action::spec_selection_lsp_range(sel, lines, enc));
        }
        if crate::position::ranges_touch_same_line(lenses[k].1.range, sel_lsp) {
            let rr = lenses[k].1.range;
            let h: u64 = if rr.end.line >= rr.start.line {
                (rr.end.line - rr.start.line) as u64
            } else {
                0
            };
            tagged.push((h, k));
        }
        k = k + 1;
    }
    proof {
        assert(lenses@.take(lenses@.len() as int) =~= lenses@);
    }
    let order = crate::sorting::sort_pairs_by_key(tagged);
    proof {
        crate::sorting::lemma_sort_by_key_contains(touching_tagged(lenses@, sel, lines, regs));
        lemma_touching_tagged_indices(lenses@, sel, lines, regs);
        assert forall|t: int| 0 <= t < order@.len() implies (#[trigger] order@[t]).1
            < lenses@.len() by {
            let tt = touching_tagged(lenses@, sel, lines, regs);
            assert(tt.contains(order@[t]));
            let w = choose|w: int| 0 <= w < tt.len() && tt[w] == order@[t];
        }
    }
    if order.len() == 0 {
        return CodeLensAction::Error("no code lens in selection".to_owned());
    }
    let cmd = render_perform_command(lenses, &order, registry);
    CodeLensAction::Perform(cmd)
}

} // verus!
