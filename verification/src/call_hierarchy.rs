//! Call-hierarchy lists: incoming callers and outgoing callees.
//!
//! The prepare step picks the first item of the first answering server;
//! the calls reply renders one header line for the item and, per call,
//! the counterpart's location and each callsite with its source line.

use vstd::prelude::*;

use crate::dispatch::Feature;
use crate::dispatch::spec_first_some_index;
use crate::escape::editor_quote_seq;
use crate::position::line_at;
use crate::position::lines_fit;
use crate::position::lsp_position_to_editor_spec;
use crate::position::spec_located_position;
use crate::strutil::dec_digits;
use crate::strutil::push_chars;
use crate::strutil::push_str;
use crate::strutil::push_u32;
use crate::strutil::spec_short_path;
use crate::types::Document;
use crate::types::EditorMeta;
use crate::types::EditorPosition;
use crate::types::FileContents;
use crate::types::LspPosition;
use crate::types::LspRange;
use crate::types::ServerId;
use crate::types::ServerRegistry;
use crate::types::lookup_file;

verus! {

/// One function in the hierarchy: its name, its file and its range.
pub struct CallHierarchyItem {
    pub name: String,
    pub filename: String,
    pub range: LspRange,
}

/// One call edge: who calls (incoming) or who is called (outgoing), and
/// the callsite ranges inside the caller.
pub enum CallHierarchyCall {
    Incoming { from: CallHierarchyItem, from_ranges: Vec<LspRange> },
    Outgoing { to: CallHierarchyItem, from_ranges: Vec<LspRange> },
}

impl CallHierarchyCall {
    /// The counterpart listed for this edge.
    pub open spec fn spec_counterpart(&self) -> CallHierarchyItem {
        match self {
            CallHierarchyCall::Incoming { from, .. } => *from,
            CallHierarchyCall::Outgoing { to, .. } => *to,
        }
    }

    /// The function the callsites lie in.
    pub open spec fn spec_caller(&self, item: CallHierarchyItem) -> CallHierarchyItem {
        match self {
            CallHierarchyCall::Incoming { from, .. } => *from,
            CallHierarchyCall::Outgoing { .. } => item,
        }
    }

    /// The callsite ranges.
    pub open spec fn spec_callsites(&self) -> Seq<LspRange> {
        match self {
            CallHierarchyCall::Incoming { from_ranges, .. } => from_ranges@,
            CallHierarchyCall::Outgoing { from_ranges, .. } => from_ranges@,
        }
    }

    /// The counterpart listed for this edge.
    pub fn caller_or_callee(&self) -> (r: &CallHierarchyItem)
        ensures
            *r == self.spec_counterpart(),
    {
        match self {
            CallHierarchyCall::Incoming { from, .. } => from,
            CallHierarchyCall::Outgoing { to, .. } => to,
        }
    }

    /// The function the callsites lie in.
    pub fn caller<'a>(&'a self, item: &'a CallHierarchyItem) -> (r: &'a CallHierarchyItem)
        ensures
            *r == self.spec_caller(*item),
    {
        match self {
            CallHierarchyCall::Incoming { from, .. } => from,
            CallHierarchyCall::Outgoing { .. } => item,
        }
    }

    /// The callsite ranges.
    pub fn callsites(&self) -> (r: &Vec<LspRange>)
        ensures
            r@ == self.spec_callsites(),
    {
        match self {
            CallHierarchyCall::Incoming { from_ranges, .. } => from_ranges,
            CallHierarchyCall::Outgoing { from_ranges, .. } => from_ranges,
        }
    }
}

/// One list line: `prefix` + shortened file + position + `: ` + suffix +
/// newline.
pub open spec fn spec_format_location(
    root: Seq<char>,
    filename: Seq<char>,
    position: LspPosition,
    prefix: Seq<char>,
    suffix: Seq<char>,
    files: Seq<(String, Vec<Vec<char>>)>,
    enc: crate::types::OffsetEncoding,
) -> Seq<char> {
    let pos = spec_located_position(filename, position, files, enc);
    prefix + spec_short_path(filename, root) + seq![':'] + dec_digits(pos.line as nat) + seq![':']
        + dec_digits(pos.column as nat) + ": "@ + suffix + "\n"@
}

/// Appends one list line.
fn push_format_location(
    out: &mut Vec<char>,
    root: &String,
    filename: &String,
    position: LspPosition,
    prefix: &str,
    suffix: &Vec<char>,
    files: &FileContents,
    enc: crate::types::OffsetEncoding,
)
    requires
        crate::position::files_fit(files.files@),
        position.line < 0xffff_ffff,
        position.character < 0xffff_ffff,
    ensures
        final(out)@ == old(out)@ + spec_format_location(
            root@,
            filename@,
            position,
            prefix@,
            suffix@,
            files.files@,
            enc,
        ),
{
    push_str(out, prefix);
    let pos = match files.get(filename.as_str()) {
        Option::Some(lines) => {
            proof {
                crate::types::lemma_lookup_file_from_entry(files.files@, filename@);
            }
            crate::position::lsp_position_to_editor(position, lines, enc)
        },
        Option::None => EditorPosition { line: position.line + 1, column: position.character + 1 },
    };
    let short = crate::strutil::short_file_path(filename.as_str(), root.as_str());
    push_str(out, short.as_str());
    out.push(':');
    push_u32(out, pos.line);
    out.push(':');
    push_u32(out, pos.column);
    push_str(out, ": ");
    push_chars(out, suffix);
    push_str(out, "\n");
    proof {
        assert(out@ =~= old(out)@ + spec_format_location(
            root@,
            filename@,
            position,
            prefix@,
            suffix@,
            files.files@,
            enc,
        ));
    }
}

/// A line with its end-of-line characters removed.
pub open spec fn strip_eol(s: Seq<char>) -> Seq<char> {
    if s.len() >= 2 && s[s.len() - 2] == '\r' && s[s.len() - 1] == '\n' {
        s.take(s.len() - 2)
    } else if s.len() >= 1 && s[s.len() - 1] == '\n' {
        s.take(s.len() - 1)
    } else {
        s
    }
}

/// Copies a line without its end-of-line characters.
fn line_without_eol(line: &Vec<char>) -> (r: Vec<char>)
    ensures
        r@ == strip_eol(line@),
{
    let n = line.len();
    let keep: usize = if n >= 2 && line[n - 2] == '\r' && line[n - 1] == '\n' {
        n - 2
    } else if n >= 1 && line[n - 1] == '\n' {
        n - 1
    } else {
        n
    };
    let mut out: Vec<char> = Vec::new();
    let mut i: usize = 0;
    proof {
        assert(line@.take(0) =~= Seq::<char>::empty());
    }
    while i < keep
        invariant
            i <= keep <= line@.len(),
            out@ == line@.take(i as int),
        decreases keep - i,
    {
        proof {
            assert(line@.take(i as int + 1) =~= line@.take(i as int).push(line@[i as int]));
        }
        out.push(line[i]);
        i = i + 1;
    }
    proof {
        if keep == line@.len() {
            assert(line@.take(keep as int) =~= line@);
        }
    }
    out
}

/// The source line a callsite shows: the caller file's line, without its
/// end-of-line characters; nothing when the file's text is not at hand.
pub open spec fn spec_callsite_line(
    caller_file: Seq<char>,
    range: LspRange,
    files: Seq<(String, Vec<Vec<char>>)>,
) -> Seq<char> {
    match lookup_file(files, caller_file) {
        Option::Some(lines) => strip_eol(line_at(lines, range.start.line as int)),
        Option::None => Seq::empty(),
    }
}

/// The block a single call renders: the counterpart's location and one
/// line per callsite.
pub open spec fn spec_call_block(
    call: CallHierarchyCall,
    item: CallHierarchyItem,
    root: Seq<char>,
    files: Seq<(String, Vec<Vec<char>>)>,
    enc: crate::types::OffsetEncoding,
) -> Seq<char> {
    let cc = call.spec_counterpart();
    let caller = call.spec_caller(item);
    spec_format_location(root, cc.filename@, cc.range.start, "  "@, cc.name@, files, enc)
        + crate::goto::concat_all(
        call.spec_callsites().map_values(
            |range: LspRange| spec_format_location(
                root,
                caller.filename@,
                range.start,
                "    "@,
                spec_callsite_line(caller.filename@, range, files),
                files,
                enc,
            ),
        ),
    )
}

/// The whole list: the item's header line and each call's block, behind
/// the fitting editor command.
pub open spec fn spec_call_hierarchy_command(
    incoming_or_outgoing: bool,
    item: CallHierarchyItem,
    calls: Seq<CallHierarchyCall>,
    root: Seq<char>,
    files: Seq<(String, Vec<Vec<char>>)>,
    enc: crate::types::OffsetEncoding,
) -> Seq<char> {
    let header = spec_format_location(
        root,
        item.filename@,
        item.range.start,
        ""@,
        item.name@ + " - list of "@ + (if incoming_or_outgoing {
            "callers"@
        } else {
            "callees"@
        }),
        files,
        enc,
    );
    let contents = header + crate::goto::concat_all(
        calls.map_values(|call: CallHierarchyCall| spec_call_block(call, item, root, files, enc)),
    );
    (if incoming_or_outgoing {
        "lsp-show-incoming-calls"@
    } else {
        "lsp-show-outgoing-calls"@
    }) + seq![' '] + editor_quote_seq(root) + seq![' '] + editor_quote_seq(contents)
}

/// All positions of a calls reply leave room for the 1-based fallback.
pub open spec fn calls_fit(calls: Seq<CallHierarchyCall>) -> bool {
    forall|i: int|
        0 <= i < calls.len() ==> ((#[trigger] calls[i]).spec_counterpart().range.start.line
            < 0xffff_ffff && calls[i].spec_counterpart().range.start.character < 0xffff_ffff
            && forall|j: int|
            0 <= j < calls[i].spec_callsites().len() ==> ((
            #[trigger] calls[i].spec_callsites()[j]).start.line < 0xffff_ffff
                && calls[i].spec_callsites()[j].start.character < 0xffff_ffff))
}

/// Renders the caller or callee list of one hierarchy item.
pub fn format_call_hierarchy_calls(
    incoming_or_outgoing: bool,
    item: &CallHierarchyItem,
    calls: &Vec<CallHierarchyCall>,
    root: &String,
    files: &FileContents,
    enc: crate::types::OffsetEncoding,
) -> (r: String)
    requires
        crate::position::files_fit(files.files@),
        item.range.start.line < 0xffff_ffff,
        item.range.start.character < 0xffff_ffff,
        calls_fit(calls@),
    ensures
        r@ == spec_call_hierarchy_command(
            incoming_or_outgoing,
            *item,
            calls@,
            root@,
            files.files@,
            enc,
        ),
{
    let mut suffix = crate::strutil::str_chars(item.name.as_str());
    push_str(&mut suffix, " - list of ");
    if incoming_or_outgoing {
        push_str(&mut suffix, "callers");
    } else {
        push_str(&mut suffix, "callees");
    }
    let mut contents: Vec<char> = Vec::new();
    push_format_location(
        &mut contents,
        root,
        &item.filename,
        item.range.start,
        "",
        &suffix,
        files,
        enc,
    );
    proof {
        assert(""@ =~= Seq::<char>::empty()) by {
            reveal_strlit("");
        }
    }
    let ghost header = spec_format_location(
        root@,
        item.filename@,
        item.range.start,
        ""@,
        item.name@ + " - list of "@ + (if incoming_or_outgoing {
            "callers"@
        } else {
            "callees"@
        }),
        files.files@,
        enc,
    );
    let ghost blocks = calls@.map_values(
        |call: CallHierarchyCall| spec_call_block(call, *item, root@, files.files@, enc),
    );
    proof {
        assert(contents@ =~= header + crate::goto::concat_all(blocks.take(0)));
    }
    let mut c: usize = 0;
    while c < calls.len()
        invariant
            c <= calls@.len(),
            crate::position::files_fit(files.files@),
            calls_fit(calls@),
            blocks == calls@.map_values(
                |call: CallHierarchyCall| spec_call_block(call, *item, root@, files.files@, enc),
            ),
            contents@ == header + crate::goto::concat_all(blocks.take(c as int)),
        decreases calls@.len() - c,
    {
        let call = &calls[c];
        let cc = call.caller_or_callee();
        let caller = call.caller(item);
        let cc_name = crate::strutil::str_chars(cc.name.as_str());
        let ghost before_block = contents@;
        push_format_location(
            &mut contents,
            root,
            &cc.filename,
            cc.range.start,
            "  ",
            &cc_name,
            files,
            enc,
        );
        let sites = call.callsites();
        let ghost site_lines = calls@[c as int].spec_callsites().map_values(
            |range: LspRange| spec_format_location(
                root@,
                calls@[c as int].spec_caller(*item).filename@,
                range.start,
                "    "@,
                spec_callsite_line(calls@[c as int].spec_caller(*item).filename@, range, files.files@),
                files.files@,
                enc,
            ),
        );
        let ghost after_head = contents@;
        proof {
            assert(contents@ =~= before_block + spec_format_location(
                root@,
                calls@[c as int].spec_counterpart().filename@,
                calls@[c as int].spec_counterpart().range.start,
                "  "@,
                calls@[c as int].spec_counterpart().name@,
                files.files@,
                enc,
            ));
        }
        let mut s: usize = 0;
        proof {
            assert(contents@ =~= after_head + crate::goto::concat_all(site_lines.take(0)));
        }
        while s < sites.len()
            invariant
                s <= sites@.len(),
                c < calls@.len(),
                crate::position::files_fit(files.files@),
                calls_fit(calls@),
                sites@ == calls@[c as int].spec_callsites(),
                caller == calls@[c as int].spec_caller(*item),
                site_lines == calls@[c as int].spec_callsites().map_values(
                    |range: LspRange| spec_format_location(
                        root@,
                        calls@[c as int].spec_caller(*item).filename@,
                        range.start,
                        "    "@,
                        spec_callsite_line(
                            calls@[c as int].spec_caller(*item).filename@,
                            range,
                            files.files@,
                        ),
                        files.files@,
                        enc,
                    ),
                ),
                contents@ == after_head + crate::goto::concat_all(site_lines.take(s as int)),
            decreases sites@.len() - s,
        {
            let range = sites[s];
            proof {
                assert(calls@[c as int].spec_callsites()[s as int] == range);
            }
            let line: Vec<char> = match files.get(caller.filename.as_str()) {
                Option::Some(lines) => {
                    let empty_line: Vec<char> = Vec::new();
                    let l = crate::position::get_line(lines, range.start.line as usize, &empty_line);
                    line_without_eol(l)
                },
                Option::None => Vec::new(),
            };
            proof {
                assert(line@ =~= spec_callsite_line(
                    calls@[c as int].spec_caller(*item).filename@,
                    range,
                    files.files@,
                ));
            }
            push_format_location(
                &mut contents,
                root,
                &caller.filename,
                range.start,
                "    ",
                &line,
                files,
                enc,
            );
            proof {
                assert(site_lines.take(s as int + 1).drop_last() =~= site_lines.take(s as int));
                assert(site_lines.take(s as int + 1).last() == site_lines[s as int]);
                assert(contents@ =~= after_head + crate::goto::concat_all(
                    site_lines.take(s as int + 1),
                ));
            }
            s = s + 1;
        }
        proof {
            assert(site_lines.take(site_lines.len() as int) =~= site_lines);
            assert(blocks.take(c as int + 1).drop_last() =~= blocks.take(c as int));
            assert(blocks.take(c as int + 1).last() == blocks[c as int]);
            assert(contents@ =~= header + crate::goto::concat_all(blocks.take(c as int + 1)));
        }
        c = c + 1;
    }
    proof {
        assert(blocks.take(blocks.len() as int) =~= blocks);
    }
    let mut out: Vec<char> = if incoming_or_outgoing {
        crate::strutil::str_chars("lsp-show-incoming-calls")
    } else {
        crate::strutil::str_chars("lsp-show-outgoing-calls")
    };
    push_str(&mut out, " ");
    let qroot = crate::escape::editor_quote(root.as_str());
    push_str(&mut out, qroot.as_str());
    push_str(&mut out, " ");
    out.push('\'');
    let mut qcontents = crate::escape::escape_doubling(&contents, '\'');
    out.append(&mut qcontents);
    out.push('\'');
    proof {
        assert(seq![' '] =~= " "@) by {
            reveal_strlit(" ");
        }
        assert(out@ =~= spec_call_hierarchy_command(
            incoming_or_outgoing,
            *item,
            calls@,
            root@,
            files.files@,
            enc,
        ));
    }
    crate::strutil::chars_to_string(&out)
}

/// Picks the item the calls request is made for: the first answering
/// server and the index of its first item; nothing when no server
/// answered or the first answer was empty.
pub fn request_call_hierarchy(results: &Vec<(ServerId, Option<Vec<CallHierarchyItem>>)>) -> (r:
    Option<(ServerId, usize)>)
    ensures
        ({
            let idx = spec_first_some_index(results@);
            if idx < results@.len() && results@[idx].1->0@.len() > 0 {
                r is Some && (r->0).0 == results@[idx].0 && (r->0).1 == idx
            } else {
                r is None
            }
        }),
{
    proof {
        crate::dispatch::lemma_first_some_index_bounds(results@);
    }
    let mut i: usize = 0;
    while i < results.len()
        invariant
            i <= results@.len(),
            forall|j: int| 0 <= j < i ==> (#[trigger] results@[j]).1 is None,
        decreases results@.len() - i,
    {
        match &results[i].1 {
            Option::Some(items) => {
                proof {
                    crate::dispatch::lemma_first_some_index_bounds(results@);
                    let f = spec_first_some_index(results@);
                    assert(results@[i as int].1 is Some);
                    if f < i as int {
                        assert(results@[f].1 is None);
                        assert(false);
                    }
                    if f > i as int {
                        assert(results@[i as int].1 is None);
                        assert(false);
                    }
                }
                if items.len() == 0 {
                    return Option::None;
                }
                return Option::Some((results[i].0, i));
            },
            Option::None => {},
        }
        i = i + 1;
    }
    proof {
        crate::dispatch::lemma_first_some_index_bounds(results@);
        if spec_first_some_index(results@) < results@.len() {
            assert(results@[spec_first_some_index(results@)].1 is None);
        }
    }
    Option::None
}

/// The prepare entry point: the consulted servers that pass the capability filter and
/// the position under the main server's encoding.
pub fn call_hierarchy_prepare(
    meta: &EditorMeta,
    position: EditorPosition,
    registry: &ServerRegistry,
    document: Option<&Document>,
) -> (r: Option<(Vec<ServerId>, LspPosition)>)
    requires
        registry.servers@.len() > 0,
        position.line >= 1,
        position.column >= 1,
        match document {
            Option::Some(doc) => lines_fit(doc.lines@),
            Option::None => true,
        },
    ensures
        r is Some <==> document is Some,
        r is Some ==> (r->0).1 == crate::position::editor_position_to_lsp_spec(
            position,
            document->0.lines@,
            registry.servers@[0].offset_encoding,
        ),
        r is Some ==> forall|k: int|
            0 <= k < (r->0).0@.len() ==> crate::dispatch::spec_eligible(
                registry,
                meta,
                Feature::CallHierarchy,
                #[trigger] (r->0).0@[k],
            ),
{
    let doc = match document {
        Option::Some(doc) => doc,
        Option::None => {
            return Option::None;
        },
    };
    let servers = crate::dispatch::eligible_servers(registry, meta, Feature::CallHierarchy);
    let lsp_position = crate::position::editor_position_to_lsp(
        position,
        &doc.lines,
        registry.main().offset_encoding,
    );
    Option::Some((servers, lsp_position))
}

} // verus!
