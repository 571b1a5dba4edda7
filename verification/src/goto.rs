//! Goto targets: normalization, the single-target jump and the grouped
//! choice list.
//!
//! A goto answer is normalized to a list of locations. One location
//! becomes a jump command; several become a choice list grouped by file
//! in first-encountered order, keeping the input order within a file.

use vstd::prelude::*;

use crate::dispatch::Feature;
use crate::escape::editor_quote_seq;
use crate::position::line_at;
use crate::position::lines_fit;
use crate::position::lsp_position_to_editor_spec;
use crate::position::spec_editor_range_fmt;
use crate::strutil::dec_digits;
use crate::strutil::push_chars;
use crate::strutil::push_str;
use crate::strutil::push_u32;
use crate::strutil::spec_short_path;
use crate::types::Document;
use crate::types::EditorMeta;
use crate::types::EditorPosition;
use crate::types::EditorRange;
use crate::types::FileContents;
use crate::types::Location;
use crate::types::LspPosition;
use crate::types::ServerId;
use crate::types::ServerRegistry;
use crate::types::lookup_file;

verus! {

/// A location link, as servers answer goto requests that support links:
/// only the target file and its selection range matter here.
pub struct LocationLink {
    pub filename: String,
    pub target_selection_range: crate::types::LspRange,
}

/// A goto answer: one location, several, or location links.
pub enum GotoResponse {
    Scalar(Location),
    Array(Vec<Location>),
    Link(Vec<LocationLink>),
}

/// The normalized target list of an answer.
pub open spec fn spec_goto_locations(r: GotoResponse) -> Seq<Location> {
    match r {
        GotoResponse::Scalar(l) => seq![l],
        GotoResponse::Array(v) => v@,
        GotoResponse::Link(v) => v@.map_values(
            |ll: LocationLink| Location { filename: ll.filename, range: ll.target_selection_range },
        ),
    }
}

/// Normalizes an answer into its target list.
pub fn goto_response_locations(r: GotoResponse) -> (locs: Vec<Location>)
    ensures
        locs@ == spec_goto_locations(r),
{
    match r {
        GotoResponse::Scalar(l) => {
            let mut v: Vec<Location> = Vec::new();
            v.push(l);
            proof {
                assert(v@ =~= spec_goto_locations(GotoResponse::Scalar(v@[0])));
            }
            v
        },
        GotoResponse::Array(v) => v,
        GotoResponse::Link(v) => {
            let ghost v0 = v@;
            let mut out: Vec<Location> = Vec::new();
            let mut rest = v;
            let ghost mut i: int = 0;
            let ghost mapped = v0.map_values(
                |ll: LocationLink| Location {
                    filename: ll.filename,
                    range: ll.target_selection_range,
                },
            );
            proof {
                assert(rest@ =~= v0.skip(0));
                assert(out@ =~= mapped.take(0));
            }
            while rest.len() > 0
                invariant
                    0 <= i <= v0.len(),
                    rest@ == v0.skip(i),
                    mapped == v0.map_values(
                        |ll: LocationLink| Location {
                            filename: ll.filename,
                            range: ll.target_selection_range,
                        },
                    ),
                    out@ == mapped.take(i),
                decreases rest@.len(),
            {
                let ll = rest.remove(0);
                proof {
                    assert(ll == v0[i]);
                    assert(rest@ =~= v0.skip(i + 1));
                }
                out.push(Location { filename: ll.filename, range: ll.target_selection_range });
                proof {
                    assert(mapped.take(i + 1) =~= mapped.take(i).push(mapped[i]));
                    i = i + 1;
                }
            }
            proof {
                assert(mapped.take(v0.len() as int) =~= mapped);
            }
            out
        },
    }
}

/// Index of the first server, in registry order, whose goto answer is
/// present and holds at least one target, or the length when none does.
pub open spec fn spec_first_goto_index(s: Seq<(ServerId, Option<GotoResponse>)>) -> int
    decreases s.len(),
{
    if s.len() == 0 {
        0
    } else if s[0].1 is Some && spec_goto_locations(s[0].1->0).len() > 0 {
        0
    } else {
        1 + spec_first_goto_index(s.drop_first())
    }
}

proof fn lemma_first_goto_index_bounds(s: Seq<(ServerId, Option<GotoResponse>)>)
    ensures
        0 <= spec_first_goto_index(s) <= s.len(),
        spec_first_goto_index(s) < s.len() ==> s[spec_first_goto_index(s)].1 is Some
            && spec_goto_locations(s[spec_first_goto_index(s)].1->0).len() > 0,
        forall|i: int|
            0 <= i < spec_first_goto_index(s) ==> !((#[trigger] s[i]).1 is Some
                && spec_goto_locations(s[i].1->0).len() > 0),
    decreases s.len(),
{
    if s.len() > 0 && !(s[0].1 is Some && spec_goto_locations(s[0].1->0).len() > 0) {
        lemma_first_goto_index_bounds(s.drop_first());
        assert forall|i: int|
            0 <= i < spec_first_goto_index(s) implies !((#[trigger] s[i]).1 is Some
            && spec_goto_locations(s[i].1->0).len() > 0) by {
            if i > 0 {
                assert(s.drop_first()[i - 1] == s[i]);
            }
        }
    }
}

/// First-non-empty fusion for the goto family: the index of the first
/// answer, in registry order, that names at least one target.
pub fn first_nonempty_goto_index(results: &Vec<(ServerId, Option<GotoResponse>)>) -> (r: Option<
    usize,
>)
    ensures
        r is Some <==> spec_first_goto_index(results@) < results@.len(),
        r is Some ==> r->0 == spec_first_goto_index(results@),
{
    let mut i: usize = 0;
    while i < results.len()
        invariant
            i <= results@.len(),
            forall|j: int|
                0 <= j < i ==> !((#[trigger] results@[j]).1 is Some && spec_goto_locations(
                    results@[j].1->0,
                ).len() > 0),
        decreases results@.len() - i,
    {
        let nonempty = match &results[i].1 {
            Option::Some(resp) => match resp {
                GotoResponse::Scalar(_) => true,
                GotoResponse::Array(v) => v.len() > 0,
                GotoResponse::Link(v) => v.len() > 0,
            },
            Option::None => false,
        };
        proof {
            assert(nonempty == (results@[i as int].1 is Some && spec_goto_locations(
                results@[i as int].1->0,
            ).len() > 0));
        }
        if nonempty {
            proof {
                lemma_first_goto_index_bounds(results@);
                let f = spec_first_goto_index(results@);
                if f < i as int {
                    assert(!((results@[f]).1 is Some && spec_goto_locations(
                        results@[f].1->0,
                    ).len() > 0));
                }
            }
            return Option::Some(i);
        }
        i = i + 1;
    }
    proof {
        lemma_first_goto_index_bounds(results@);
        if spec_first_goto_index(results@) < results@.len() {
            assert(!((results@[spec_first_goto_index(results@)]).1 is Some
                && spec_goto_locations(results@[spec_first_goto_index(results@)].1->0).len()
                > 0));
        }
    }
    Option::None
}

/// The jump sub-command: open the file, select the range, and center.
pub open spec fn spec_edit_at_range(buffile: Seq<char>, range: EditorRange) -> Seq<char> {
    "edit -existing "@ + editor_quote_seq(buffile) + "\nselect "@ + spec_editor_range_fmt(range)
        + "\nexecute-keys <c-s>vv"@
}

/// Composes the jump sub-command for a file and a selected range.
pub fn edit_at_range(buffile: &str, range: EditorRange) -> (r: String)
    ensures
        r@ == spec_edit_at_range(buffile@, range),
{
    let mut out = crate::strutil::str_chars("edit -existing ");
    let quoted = crate::escape::editor_quote(buffile);
    push_str(&mut out, quoted.as_str());
    push_str(&mut out, "\nselect ");
    crate::position::push_editor_range(&mut out, range);
    push_str(&mut out, "\nexecute-keys <c-s>vv");
    proof {
        assert(out@ =~= spec_edit_at_range(buffile@, range));
    }
    crate::strutil::chars_to_string(&out)
}

/// The distinct file names of the targets, in first-encountered order.
pub open spec fn distinct_files(locs: Seq<Location>) -> Seq<Seq<char>>
    decreases locs.len(),
{
    if locs.len() == 0 {
        Seq::empty()
    } else {
        let p = distinct_files(locs.drop_last());
        if p.contains(locs.last().filename@) {
            p
        } else {
            p.push(locs.last().filename@)
        }
    }
}

/// The targets lying in file `f`, in input order.
pub open spec fn locs_of_file(locs: Seq<Location>, f: Seq<char>) -> Seq<Location>
    decreases locs.len(),
{
    if locs.len() == 0 {
        Seq::empty()
    } else {
        let p = locs_of_file(locs.drop_last(), f);
        if locs.last().filename@ == f {
            p.push(locs.last())
        } else {
            p
        }
    }
}

/// Grouping preserves first-encountered file order and, within a file,
/// input order: the group list names each file exactly once, every
/// target's file has a group, and appending a target only appends it to
/// its own file's group.
pub proof fn lemma_goto_grouping_order(locs: Seq<Location>, x: Location)
    ensures
        forall|i: int, j: int|
            0 <= i < j < distinct_files(locs).len() ==> distinct_files(locs)[i] != distinct_files(
                locs,
            )[j],
        forall|t: int|
            0 <= t < locs.len() ==> distinct_files(locs).contains(
                (#[trigger] locs[t]).filename@,
            ),
        forall|f: Seq<char>|
            #[trigger] locs_of_file(locs.push(x), f) == if x.filename@ == f {
                locs_of_file(locs, f).push(x)
            } else {
                locs_of_file(locs, f)
            },
    decreases locs.len(),
{
    assert forall|f: Seq<char>|
        #[trigger] locs_of_file(locs.push(x), f) == (if x.filename@ == f {
            locs_of_file(locs, f).push(x)
        } else {
            locs_of_file(locs, f)
        }) by {
        assert(locs.push(x).drop_last() =~= locs);
        assert(locs.push(x).last() == x);
    }
    if locs.len() > 0 {
        lemma_goto_grouping_order(locs.drop_last(), x);
        let p = distinct_files(locs.drop_last());
        let d = distinct_files(locs);
        assert forall|i: int, j: int| 0 <= i < j < d.len() implies d[i] != d[j] by {
            if j < p.len() {
                assert(d[i] == p[i] && d[j] == p[j]);
            } else if d != p {
                assert(d == p.push(locs.last().filename@));
                assert(d[i] == p[i]);
                if d[i] == d[j] {
                    assert(p.contains(locs.last().filename@));
                    assert(false);
                }
            }
        }
        assert forall|t: int|
            0 <= t < locs.len() implies d.contains((#[trigger] locs[t]).filename@) by {
            if t < locs.len() - 1 {
                assert(locs.drop_last()[t] == locs[t]);
                assert(p.contains(locs[t].filename@));
                let w = choose|w: int| 0 <= w < p.len() && p[w] == locs[t].filename@;
                assert(d[w] == p[w] || d == p);
            } else {
                assert(locs[t] == locs.last());
                if p.contains(locs.last().filename@) {
                    let w = choose|w: int| 0 <= w < p.len() && p[w] == locs.last().filename@;
                    assert(d[w] == p[w] || d == p);
                } else {
                    assert(d == p.push(locs.last().filename@));
                    assert(d[p.len() as int] == locs.last().filename@);
                }
            }
        }
    }
}

/// Concatenation of rendered parts.
pub open spec fn concat_all(parts: Seq<Seq<char>>) -> Seq<char>
    decreases parts.len(),
{
    if parts.len() == 0 {
        Seq::empty()
    } else {
        concat_all(parts.drop_last()) + parts.last()
    }
}

/// One choice entry: `short_path:line:column:` and the target line's text
/// (which keeps its trailing newline, separating the entries); targets
/// past the end of the file render nothing.
pub open spec fn spec_goto_entry(
    loc: Location,
    lines: Seq<Vec<char>>,
    root: Seq<char>,
    enc: crate::types::OffsetEncoding,
) -> Seq<char> {
    if loc.range.start.line >= lines.len() {
        Seq::empty()
    } else {
        let pos = lsp_position_to_editor_spec(loc.range.start, lines, enc);
        spec_short_path(loc.filename@, root) + seq![':'] + dec_digits(pos.line as nat) + seq![':']
            + dec_digits(pos.column as nat) + seq![':'] + line_at(lines, loc.range.start.line as int)
    }
}

/// The entries of one file's group; a file whose text is not at hand
/// renders nothing.
pub open spec fn spec_goto_group(
    f: Seq<char>,
    locs: Seq<Location>,
    files: Seq<(String, Vec<Vec<char>>)>,
    root: Seq<char>,
    enc: crate::types::OffsetEncoding,
) -> Seq<char> {
    match lookup_file(files, f) {
        Option::None => Seq::empty(),
        Option::Some(lines) => concat_all(
            locs_of_file(locs, f).map_values(|loc: Location| spec_goto_entry(loc, lines, root, enc)),
        ),
    }
}

/// The whole choice list: the groups in first-encountered file order.
pub open spec fn spec_goto_choices(
    locs: Seq<Location>,
    files: Seq<(String, Vec<Vec<char>>)>,
    root: Seq<char>,
    enc: crate::types::OffsetEncoding,
) -> Seq<char> {
    "lsp-show-goto-choices "@ + editor_quote_seq(root) + seq![' '] + editor_quote_seq(
        concat_all(
            distinct_files(locs).map_values(
                |f: Seq<char>| spec_goto_group(f, locs, files, root, enc),
            ),
        ),
    )
}

/// Target ranges leave room for the editor's 1-based lines.
pub open spec fn locs_fit(locs: Seq<Location>) -> bool {
    forall|i: int| 0 <= i < locs.len() ==> (#[trigger] locs[i]).range.start.line < 0xffff_ffff
        && locs[i].range.end.line < 0xffff_ffff
}

/// Composes the jump command for a single target; nothing when the
/// file's text is not at hand.
fn goto_location_cmd(
    loc: &Location,
    files: &FileContents,
    root: &String,
    enc: crate::types::OffsetEncoding,
) -> (r: Option<String>)
    requires
        crate::position::files_fit(files.files@),
        loc.range.start.line < 0xffff_ffff,
        loc.range.end.line < 0xffff_ffff,
    ensures
        r is Some <==> lookup_file(files.files@, loc.filename@) is Some,
        r is Some ==> r->0@ == "evaluate-commands -try-client %opt{jumpclient} -- "@
            + editor_quote_seq(
            spec_edit_at_range(
                loc.filename@,
                EditorRange {
                    start: lsp_position_to_editor_spec(
                        loc.range.start,
                        lookup_file(files.files@, loc.filename@)->0,
                        enc,
                    ),
                    end: lsp_position_to_editor_spec(
                        loc.range.end,
                        lookup_file(files.files@, loc.filename@)->0,
                        enc,
                    ),
                },
            ),
        ),
{
    let lines = match files.get(loc.filename.as_str()) {
        Option::Some(lines) => lines,
        Option::None => {
            return Option::None;
        },
    };
    proof {
        crate::types::lemma_lookup_file_from_entry(files.files@, loc.filename@);
    }
    let er = crate::position::lsp_range_to_editor(&loc.range, lines, enc);
    let sub = edit_at_range(loc.filename.as_str(), er);
    let mut out = crate::strutil::str_chars("evaluate-commands -try-client %opt{jumpclient} -- ");
    let quoted = crate::escape::editor_quote(sub.as_str());
    push_str(&mut out, quoted.as_str());
    proof {
        assert(out@ =~= "evaluate-commands -try-client %opt{jumpclient} -- "@ + editor_quote_seq(
            sub@,
        ));
    }
    Option::Some(crate::strutil::chars_to_string(&out))
}

/// The views of collected file names.
pub open spec fn file_views(s: Seq<String>) -> Seq<Seq<char>> {
    s.map_values(|f: String| f@)
}

/// Composes the grouped choice list for several targets.
fn goto_locations_cmd(
    locs: &Vec<Location>,
    files: &FileContents,
    root: &String,
    enc: crate::types::OffsetEncoding,
) -> (r: String)
    requires
        crate::position::files_fit(files.files@),
        locs_fit(locs@),
    ensures
        r@ == spec_goto_choices(locs@, files.files@, root@, enc),
{
    // distinct file names in first-encountered order
    let mut names: Vec<String> = Vec::new();
    let mut i: usize = 0;
    proof {
        assert(locs@.take(0) =~= Seq::<Location>::empty());
        assert(file_views(names@) =~= distinct_files(locs@.take(0)));
    }
    while i < locs.len()
        invariant
            i <= locs@.len(),
            file_views(names@) == distinct_files(locs@.take(i as int)),
        decreases locs@.len() - i,
    {
        let mut seen = false;
        let mut j: usize = 0;
        while j < names.len()
            invariant
                j <= names@.len(),
                i < locs@.len(),
                seen == exists|t: int| 0 <= t < j && (#[trigger] names@[t])@ == locs@[i as int].filename@,
            decreases names@.len() - j,
        {
            if crate::strutil::str_eq(names[j].as_str(), locs[i].filename.as_str()) {
                seen = true;
            }
            j = j + 1;
        }
        proof {
            assert(seen == file_views(names@).contains(locs@[i as int].filename@)) by {
                if seen {
                    let t = choose|t: int|
                        0 <= t < names@.len() && (#[trigger] names@[t])@ == locs@[i as int].filename@;
                    assert(file_views(names@)[t] == locs@[i as int].filename@);
                } else {
                    if file_views(names@).contains(locs@[i as int].filename@) {
                        let t = choose|t: int|
                            0 <= t < file_views(names@).len() && file_views(names@)[t]
                                == locs@[i as int].filename@;
                        assert(names@[t]@ == locs@[i as int].filename@);
                    }
                }
            }
            assert(locs@.take(i as int + 1).drop_last() =~= locs@.take(i as int));
            assert(locs@.take(i as int + 1).last() == locs@[i as int]);
        }
        if !seen {
            let ghost prev = file_views(names@);
            names.push(locs[i].filename.clone());
            proof {
                assert(file_views(names@) =~= prev.push(locs@[i as int].filename@));
            }
        }
        i = i + 1;
    }
    proof {
        assert(locs@.take(locs@.len() as int) =~= locs@);
    }
    // one group per file
    let ghost groups = distinct_files(locs@).map_values(
        |f: Seq<char>| spec_goto_group(f, locs@, files.files@, root@, enc),
    );
    let mut content: Vec<char> = Vec::new();
    let mut g: usize = 0;
    proof {
        assert(content@ =~= concat_all(groups.take(0)));
    }
    while g < names.len()
        invariant
            g <= names@.len(),
            file_views(names@) == distinct_files(locs@),
            crate::position::files_fit(files.files@),
            locs_fit(locs@),
            groups == distinct_files(locs@).map_values(
                |f: Seq<char>| spec_goto_group(f, locs@, files.files@, root@, enc),
            ),
            content@ == concat_all(groups.take(g as int)),
        decreases names@.len() - g,
    {
        let ghost fview = names@[g as int]@;
        proof {
            assert(groups.take(g as int + 1).drop_last() =~= groups.take(g as int));
            assert(groups.take(g as int + 1).last() == groups[g as int]);
            assert(distinct_files(locs@)[g as int] == fview);
        }
        match files.get(names[g].as_str()) {
            Option::None => {
                proof {
                    assert(groups[g as int] =~= Seq::<char>::empty());
                    assert(content@ =~= concat_all(groups.take(g as int + 1)));
                }
            },
            Option::Some(lines) => {
                proof {
                    crate::types::lemma_lookup_file_from_entry(files.files@, fview);
                }
                let ghost entries = locs_of_file(locs@, fview).map_values(
                    |loc: Location| spec_goto_entry(loc, lines@, root@, enc),
                );
                let mut group: Vec<char> = Vec::new();
                let mut t: usize = 0;
                proof {
                    assert(locs@.take(0) =~= Seq::<Location>::empty());
                    assert(group@ =~= concat_all(
                        locs_of_file(locs@.take(0), fview).map_values(
                            |loc: Location| spec_goto_entry(loc, lines@, root@, enc),
                        ),
                    ));
                }
                while t < locs.len()
                    invariant
                        t <= locs@.len(),
                        g < names@.len(),
                        fview == names@[g as int]@,
                        crate::position::files_fit(files.files@),
                        locs_fit(locs@),
                        lines@ == lookup_file(files.files@, fview)->0,
                        lookup_file(files.files@, fview) is Some,
                        lines_fit(lines@),
                        group@ == concat_all(
                            locs_of_file(locs@.take(t as int), fview).map_values(
                                |loc: Location| spec_goto_entry(loc, lines@, root@, enc),
                            ),
                        ),
                    decreases locs@.len() - t,
                {
                    proof {
                        assert(locs@.take(t as int + 1).drop_last() =~= locs@.take(t as int));
                        assert(locs@.take(t as int + 1).last() == locs@[t as int]);
                    }
                    if crate::strutil::str_eq(locs[t].filename.as_str(), names[g].as_str()) {
                        let ghost sub = locs_of_file(locs@.take(t as int), fview).map_values(
                            |loc: Location| spec_goto_entry(loc, lines@, root@, enc),
                        );
                        let start = locs[t].range.start;
                        if (start.line as usize) < lines.len() {
                            let pos = crate::position::lsp_position_to_editor(start, lines, enc);
                            let short = crate::strutil::short_file_path(
                                locs[t].filename.as_str(),
                                root.as_str(),
                            );
                            push_str(&mut group, short.as_str());
                            group.push(':');
                            push_u32(&mut group, pos.line);
                            group.push(':');
                            push_u32(&mut group, pos.column);
                            group.push(':');
                            push_chars(&mut group, &lines[start.line as usize]);
                        }
                        proof {
                            let lof1 = locs_of_file(locs@.take(t as int + 1), fview);
                            assert(lof1 =~= locs_of_file(locs@.take(t as int), fview).push(
                                locs@[t as int],
                            ));
                            let sub1 = lof1.map_values(
                                |loc: Location| spec_goto_entry(loc, lines@, root@, enc),
                            );
                            assert(sub1 =~= sub.push(
                                spec_goto_entry(locs@[t as int], lines@, root@, enc),
                            ));
                            assert(sub1.drop_last() =~= sub);
                            assert(group@ =~= concat_all(sub) + spec_goto_entry(
                                locs@[t as int],
                                lines@,
                                root@,
                                enc,
                            ));
                        }
                    } else {
                        proof {
                            assert(locs_of_file(locs@.take(t as int + 1), fview)
                                =~= locs_of_file(locs@.take(t as int), fview));
                        }
                    }
                    t = t + 1;
                }
                proof {
                    assert(locs@.take(locs@.len() as int) =~= locs@);
                    assert(group@ =~= groups[g as int]);
                }
                let mut gg = group;
                content.append(&mut gg);
                proof {
                    assert(content@ =~= concat_all(groups.take(g as int + 1)));
                }
            },
        }
        g = g + 1;
    }
    proof {
        assert(groups.take(groups.len() as int) =~= groups);
    }
    let mut out = crate::strutil::str_chars("lsp-show-goto-choices ");
    let qroot = crate::escape::editor_quote(root.as_str());
    push_str(&mut out, qroot.as_str());
    push_str(&mut out, " ");
    out.push('\'');
    let mut qcontent = crate::escape::escape_doubling(&content, '\'');
    out.append(&mut qcontent);
    out.push('\'');
    proof {
        assert(seq![' '] =~= " "@) by {
            reveal_strlit(" ");
        }
        assert(out@ =~= spec_goto_choices(locs@, files.files@, root@, enc));
    }
    crate::strutil::chars_to_string(&out)
}

/// Target ranges of an answer leave room for the editor's conventions.
pub open spec fn goto_response_fits(result: Option<GotoResponse>) -> bool {
    match result {
        Option::None => true,
        Option::Some(resp) => locs_fit(spec_goto_locations(resp)),
    }
}

/// The goto continuation: no target is a no-op; one target becomes a
/// jump (when its file's text is at hand); several become the grouped
/// choice list, under the main server's root and encoding.
pub fn goto(
    meta: &EditorMeta,
    result: Option<GotoResponse>,
    registry: &ServerRegistry,
    files: &FileContents,
) -> (r: Option<String>)
    requires
        registry.servers@.len() > 0,
        crate::position::files_fit(files.files@),
        goto_response_fits(result),
    ensures
        ({
            let root = registry.servers@[0].root_path@;
            let enc = registry.servers@[0].offset_encoding;
            match result {
                Option::None => r is None,
                Option::Some(resp) => {
                    let locs = spec_goto_locations(resp);
                    if locs.len() == 0 {
                        r is None
                    } else if locs.len() == 1 {
                        &&& (r is Some <==> lookup_file(files.files@, locs[0].filename@) is Some)
                        &&& (r is Some ==> r->0@
                            == "evaluate-commands -try-client %opt{jumpclient} -- "@
                            + editor_quote_seq(
                            spec_edit_at_range(
                                locs[0].filename@,
                                EditorRange {
                                    start: lsp_position_to_editor_spec(
                                        locs[0].range.start,
                                        lookup_file(files.files@, locs[0].filename@)->0,
                                        enc,
                                    ),
                                    end: lsp_position_to_editor_spec(
                                        locs[0].range.end,
                                        lookup_file(files.files@, locs[0].filename@)->0,
                                        enc,
                                    ),
                                },
                            ),
                        ))
                    } else {
                        r is Some && r->0@ == spec_goto_choices(locs, files.files@, root, enc)
                    }
                },
            }
        }),
{
    let resp = match result {
        Option::Some(resp) => resp,
        Option::None => {
            return Option::None;
        },
    };
    let locs = goto_response_locations(resp);
    if locs.len() == 0 {
        return Option::None;
    }
    let root = registry.main().root_path.clone();
    let enc = registry.main().offset_encoding;
    if locs.len() == 1 {
        return goto_location_cmd(&locs[0], files, &root, enc);
    }
    Option::Some(goto_locations_cmd(&locs, files, &root, enc))
}

/// One goto-family request, ready to dispatch: the consulted servers
/// that pass the capability filter, the position under the main server's encoding,
/// and the wire method.
pub struct GotoRequest {
    pub servers: Vec<ServerId>,
    pub position: LspPosition,
    pub method: String,
}

/// Builds a goto-family request plan.
fn goto_plan(
    meta: &EditorMeta,
    position: EditorPosition,
    registry: &ServerRegistry,
    document: Option<&Document>,
    feature: Feature,
    method: &str,
) -> (r: Option<GotoRequest>)
    requires
        registry.servers@.len() > 0,
        position.line >= 1,
        position.column >= 1,
        match document {
            Option::Some(doc) => lines_fit(doc.lines@),
            Option::None => true,
        },
    ensures
        r is Some <==> document is Some,
        r is Some ==> {
            let plan = r->0;
            &&& plan.method@ == method@
            &&& plan.position == crate::position::editor_position_to_lsp_spec(
                position,
                document->0.lines@,
                registry.servers@[0].offset_encoding,
            )
            &&& forall|k: int|
                0 <= k < plan.servers@.len() ==> crate::dispatch::spec_eligible(
                    registry,
                    meta,
                    feature,
                    #[trigger] plan.servers@[k],
                )
            &&& forall|id: ServerId|
                crate::dispatch::spec_eligible(registry, meta, feature, id)
                    ==> plan.servers@.contains(id)
        },
{
    let doc = match document {
        Option::Some(doc) => doc,
        Option::None => {
            return Option::None;
        },
    };
    let servers = crate::dispatch::eligible_servers(registry, meta, feature);
    let lsp_position = crate::position::editor_position_to_lsp(
        position,
        &doc.lines,
        registry.main().offset_encoding,
    );
    Option::Some(GotoRequest { servers, position: lsp_position, method: method.to_owned() })
}

/// The definition (or declaration) entry point.
pub fn text_document_definition(
    declaration: bool,
    meta: &EditorMeta,
    position: EditorPosition,
    registry: &ServerRegistry,
    document: Option<&Document>,
) -> (r: Option<GotoRequest>)
    requires
        registry.servers@.len() > 0,
        position.line >= 1,
        position.column >= 1,
        match document {
            Option::Some(doc) => lines_fit(doc.lines@),
            Option::None => true,
        },
    ensures
        r is Some <==> document is Some,
        r is Some ==> r->0.method@ == (if declaration {
            "textDocument/declaration"@
        } else {
            "textDocument/definition"@
        }),
        r is Some ==> r->0.position == crate::position::editor_position_to_lsp_spec(
            position,
            document->0.lines@,
            registry.servers@[0].offset_encoding,
        ),
{
    if declaration {
        goto_plan(meta, position, registry, document, Feature::Goto, "textDocument/declaration")
    } else {
        goto_plan(meta, position, registry, document, Feature::Goto, "textDocument/definition")
    }
}

/// The implementation entry point.
pub fn text_document_implementation(
    meta: &EditorMeta,
    position: EditorPosition,
    registry: &ServerRegistry,
    document: Option<&Document>,
) -> (r: Option<GotoRequest>)
    requires
        registry.servers@.len() > 0,
        position.line >= 1,
        position.column >= 1,
        match document {
            Option::Some(doc) => lines_fit(doc.lines@),
            Option::None => true,
        },
    ensures
        r is Some <==> document is Some,
        r is Some ==> r->0.method@ == "textDocument/implementation"@,
        r is Some ==> r->0.position == crate::position::editor_position_to_lsp_spec(
            position,
            document->0.lines@,
            registry.servers@[0].offset_encoding,
        ),
{
    goto_plan(meta, position, registry, document, Feature::Goto, "textDocument/implementation")
}

/// The type-definition entry point.
pub fn text_document_type_definition(
    meta: &EditorMeta,
    position: EditorPosition,
    registry: &ServerRegistry,
    document: Option<&Document>,
) -> (r: Option<GotoRequest>)
    requires
        registry.servers@.len() > 0,
        position.line >= 1,
        position.column >= 1,
        match document {
            Option::Some(doc) => lines_fit(doc.lines@),
            Option::None => true,
        },
    ensures
        r is Some <==> document is Some,
        r is Some ==> r->0.method@ == "textDocument/typeDefinition"@,
        r is Some ==> r->0.position == crate::position::editor_position_to_lsp_spec(
            position,
            document->0.lines@,
            registry.servers@[0].offset_encoding,
        ),
{
    goto_plan(meta, position, registry, document, Feature::Goto, "textDocument/typeDefinition")
}

/// The references entry point.
pub fn text_document_references(
    meta: &EditorMeta,
    position: EditorPosition,
    registry: &ServerRegistry,
    document: Option<&Document>,
) -> (r: Option<GotoRequest>)
    requires
        registry.servers@.len() > 0,
        position.line >= 1,
        position.column >= 1,
        match document {
            Option::Some(doc) => lines_fit(doc.lines@),
            Option::None => true,
        },
    ensures
        r is Some <==> document is Some,
        r is Some ==> r->0.method@ == "textDocument/references"@,
        r is Some ==> r->0.position == crate::position::editor_position_to_lsp_spec(
            position,
            document->0.lines@,
            registry.servers@[0].offset_encoding,
        ),
{
    goto_plan(meta, position, registry, document, Feature::References, "textDocument/references")
}

} // verus!
