//! Code actions: aggregation, the one-shot whole-line retry, title
//! filtering, kind-bucket ordering and the editor command composition.
//!
//! Code actions use the most intricate fusion rule: every server's
//! actions are collected; an interactive request whose selection had a
//! non-zero column span and only empty answers is retried once with the
//! ranges widened to whole lines; the result is optionally filtered by a
//! user regex, ordered by kind bucket, and rendered as `(title,
//! select-command)` pairs.

use vstd::prelude::*;

use crate::dispatch::Feature;
use crate::escape::editor_quote_seq;
use crate::parse::find_char;
use crate::position::byte_length;
use crate::position::line_at;
use crate::position::lines_fit;
use crate::position::bytes_to_units;
use crate::sorting::sort_by_key;
use crate::strutil::join_with;
use crate::strutil::join_pieces;
use crate::strutil::piece_views;
use crate::strutil::push_str;
use crate::types::Command;
use crate::types::Document;
use crate::types::EditorMeta;
use crate::types::EditorRange;
use crate::types::LspPosition;
use crate::types::LspRange;
use crate::types::ServerId;
use crate::types::ServerRegistry;
use crate::types::EOL_OFFSET;

verus! {

/// A code action proper: its title, kind, pre-serialized workspace edit
/// and resolve payload, and an optional follow-up command.
pub struct CodeAction {
    pub title: String,
    pub kind: Option<String>,
    /// The action's workspace edit, pre-serialized as JSON, if any.
    pub edit_json: Option<String>,
    pub command: Option<Command>,
    /// The whole action, pre-serialized as JSON, for the lazy resolve
    /// round-trip.
    pub action_json: String,
}

/// A server's answer item: a bare command or a code action.
pub enum ActionOrCommand {
    Command(Command),
    Action(CodeAction),
}

/// Whether `Regex::new` accepts a pattern: a function of the pattern
/// alone.
pub uninterp spec fn regex_pattern_valid(pattern: Seq<char>) -> bool;

/// Whether a valid pattern matches somewhere in a text: a function of
/// pattern and text alone.
pub uninterp spec fn regex_matches(pattern: Seq<char>, text: Seq<char>) -> bool;

/// Relies on `regex::Regex::new`: compiling succeeds or fails by the
/// pattern alone; on failure the error's display text is handed back
/// unread.
#[verifier::external_body]
fn regex_compile_check(pattern: &str) -> (r: Result<(), String>)
    ensures
        r is Ok <==> regex_pattern_valid(pattern@),
{
    match regex::Regex::new(pattern) {
        Ok(_) => Ok(()),
        Err(e) => Err(format!("{}", e)),
    }
}

/// Relies on `regex::Regex::new` and `regex::Regex::is_match`: whether a
/// valid pattern matches somewhere in the text depends on the pattern and
/// the text alone.
#[verifier::external_body]
fn regex_match_text(pattern: &str, text: &str) -> (r: Option<bool>)
    ensures
        r is Some <==> regex_pattern_valid(pattern@),
        r is Some ==> r->0 == regex_matches(pattern@, text@),
{
    regex::Regex::new(pattern).ok().map(|re| re.is_match(text))
}

/// The title of an answer item.
pub open spec fn aoc_title(a: ActionOrCommand) -> Seq<char> {
    match a {
        ActionOrCommand::Command(c) => c.title@,
        ActionOrCommand::Action(action) => action.title@,
    }
}

/// The kind string an answer item sorts under: commands and kind-less
/// actions sort as the empty kind.
pub open spec fn aoc_kind(a: ActionOrCommand) -> Seq<char> {
    match a {
        ActionOrCommand::Command(_) => Seq::empty(),
        ActionOrCommand::Action(action) => match action.kind {
            Option::Some(k) => k@,
            Option::None => Seq::empty(),
        },
    }
}

/// The fixed bucket order: quickfix, refactor, refactor.extract,
/// refactor.inline, refactor.rewrite, source, source.organizeImports,
/// everything else.
pub open spec fn kind_bucket(kind: Seq<char>) -> u64 {
    if kind == "quickfix"@ {
        0
    } else if kind == "refactor"@ {
        1
    } else if kind == "refactor.extract"@ {
        2
    } else if kind == "refactor.inline"@ {
        3
    } else if kind == "refactor.rewrite"@ {
        4
    } else if kind == "source"@ {
        5
    } else if kind == "source.organizeImports"@ {
        6
    } else {
        7
    }
}

/// The bucket of an answer item.
pub open spec fn bucket_of(a: ActionOrCommand) -> u64 {
    kind_bucket(aoc_kind(a))
}

fn kind_bucket_exec(kind: &str) -> (r: u64)
    ensures
        r == kind_bucket(kind@),
{
    if crate::strutil::str_eq(kind, "quickfix") {
        0
    } else if crate::strutil::str_eq(kind, "refactor") {
        1
    } else if crate::strutil::str_eq(kind, "refactor.extract") {
        2
    } else if crate::strutil::str_eq(kind, "refactor.inline") {
        3
    } else if crate::strutil::str_eq(kind, "refactor.rewrite") {
        4
    } else if crate::strutil::str_eq(kind, "source") {
        5
    } else if crate::strutil::str_eq(kind, "source.organizeImports") {
        6
    } else {
        7
    }
}

fn bucket_of_exec(a: &ActionOrCommand) -> (r: u64)
    ensures
        r == bucket_of(*a),
{
    proof {
        reveal_strlit("");
        assert(""@ =~= Seq::<char>::empty());
    }
    match a {
        ActionOrCommand::Command(_) => kind_bucket_exec(""),
        ActionOrCommand::Action(action) => match &action.kind {
            Option::Some(k) => kind_bucket_exec(k.as_str()),
            Option::None => kind_bucket_exec(""),
        },
    }
}

/// `lsp-apply-workspace-edit[-sync]` with the quoted edit.
pub open spec fn spec_apply_workspace_edit_command(edit_json: Seq<char>, sync: bool) -> Seq<char> {
    (if sync {
        "lsp-apply-workspace-edit-sync"@
    } else {
        "lsp-apply-workspace-edit"@
    }) + seq![' '] + editor_quote_seq(edit_json)
}

/// Composes the editor command that applies a workspace edit.
pub fn apply_workspace_edit_editor_command(edit_json: &str, sync: bool) -> (r: String)
    ensures
        r@ == spec_apply_workspace_edit_command(edit_json@, sync),
{
    let mut out: Vec<char> = if sync {
        crate::strutil::str_chars("lsp-apply-workspace-edit-sync")
    } else {
        crate::strutil::str_chars("lsp-apply-workspace-edit")
    };
    push_str(&mut out, " ");
    let quoted = crate::escape::editor_quote(edit_json);
    push_str(&mut out, quoted.as_str());
    proof {
        assert(seq![' '] =~= " "@) by {
            reveal_strlit(" ");
        }
        assert(out@ =~= spec_apply_workspace_edit_command(edit_json@, sync));
    }
    crate::strutil::chars_to_string(&out)
}

/// `lsp-execute-command[-sync]` with the quoted command, its quoted JSON
/// arguments (or an empty quoted argument) and the server's name.
pub open spec fn spec_execute_command_command(
    server_name: Seq<char>,
    c: Command,
    sync: bool,
) -> Seq<char> {
    (if sync {
        "lsp-execute-command-sync"@
    } else {
        "lsp-execute-command"@
    }) + seq![' '] + editor_quote_seq(c.command@) + seq![' '] + editor_quote_seq(
        match c.arguments_json {
            Option::Some(a) => a@,
            Option::None => Seq::empty(),
        },
    ) + seq![' '] + server_name
}

/// Composes the editor command that forwards a server command.
pub fn execute_command_editor_command(server_name: &str, c: &Command, sync: bool) -> (r: String)
    ensures
        r@ == spec_execute_command_command(server_name@, *c, sync),
{
    let mut out: Vec<char> = if sync {
        crate::strutil::str_chars("lsp-execute-command-sync")
    } else {
        crate::strutil::str_chars("lsp-execute-command")
    };
    push_str(&mut out, " ");
    let qcmd = crate::escape::editor_quote(c.command.as_str());
    push_str(&mut out, qcmd.as_str());
    push_str(&mut out, " ");
    let qargs = match &c.arguments_json {
        Option::Some(a) => crate::escape::editor_quote(a.as_str()),
        Option::None => crate::escape::editor_quote(""),
    };
    push_str(&mut out, qargs.as_str());
    push_str(&mut out, " ");
    push_str(&mut out, server_name);
    proof {
        assert(seq![' '] =~= " "@) by {
            reveal_strlit(" ");
        }
        if c.arguments_json is None {
            assert(""@ =~= Seq::<char>::empty()) by {
                reveal_strlit("");
            }
        }
        assert(out@ =~= spec_execute_command_command(server_name@, *c, sync));
    }
    crate::strutil::chars_to_string(&out)
}

/// The select-command of a code action: its edit (if any), then its
/// command (if any); an edit-less action on a resolving server becomes a
/// lazy resolve request instead.
pub open spec fn spec_code_action_command(
    server_name: Seq<char>,
    action: CodeAction,
    sync: bool,
    may_resolve: bool,
) -> Seq<char> {
    let command_part = match action.command {
        Option::Some(c) => "\n"@ + spec_execute_command_command(server_name, c, sync),
        Option::None => Seq::empty(),
    };
    match action.edit_json {
        Option::Some(e) => spec_apply_workspace_edit_command(e@, sync) + command_part,
        Option::None => if may_resolve {
            "lsp-code-action-resolve-request "@ + editor_quote_seq(action.action_json@)
        } else {
            command_part
        },
    }
}

/// Composes the select-command of a code action.
pub fn code_action_to_editor_command(
    server_name: &str,
    action: &CodeAction,
    sync: bool,
    may_resolve: bool,
) -> (r: String)
    ensures
        r@ == spec_code_action_command(server_name@, *action, sync, may_resolve),
{
    let mut command_part: Vec<char> = Vec::new();
    match &action.command {
        Option::Some(c) => {
            push_str(&mut command_part, "\n");
            let cmd = execute_command_editor_command(server_name, c, sync);
            push_str(&mut command_part, cmd.as_str());
        },
        Option::None => {},
    }
    let out: Vec<char> = match &action.edit_json {
        Option::Some(e) => {
            let mut out = crate::strutil::str_chars(
                apply_workspace_edit_editor_command(e.as_str(), sync).as_str(),
            );
            out.append(&mut command_part);
            out
        },
        Option::None => {
            if may_resolve {
                let mut out = crate::strutil::str_chars("lsp-code-action-resolve-request ");
                let quoted = crate::escape::editor_quote(action.action_json.as_str());
                push_str(&mut out, quoted.as_str());
                out
            } else {
                command_part
            }
        },
    };
    proof {
        assert(out@ =~= spec_code_action_command(server_name@, *action, sync, may_resolve));
    }
    crate::strutil::chars_to_string(&out)
}

/// The select-command of an answer item.
pub open spec fn spec_aoc_command(
    server_name: Seq<char>,
    a: ActionOrCommand,
    sync: bool,
    may_resolve: bool,
) -> Seq<char> {
    match a {
        ActionOrCommand::Command(c) => spec_execute_command_command(server_name, c, sync),
        ActionOrCommand::Action(action) => spec_code_action_command(
            server_name,
            action,
            sync,
            may_resolve,
        ),
    }
}

/// Composes the select-command of an answer item.
pub fn code_action_or_command_to_editor_command(
    server_name: &str,
    a: &ActionOrCommand,
    sync: bool,
    may_resolve: bool,
) -> (r: String)
    ensures
        r@ == spec_aoc_command(server_name@, *a, sync, may_resolve),
{
    match a {
        ActionOrCommand::Command(c) => execute_command_editor_command(server_name, c, sync),
        ActionOrCommand::Action(action) => code_action_to_editor_command(
            server_name,
            action,
            sync,
            may_resolve,
        ),
    }
}

/// The range registered for a server in this batch, if any.
pub open spec fn spec_lookup_range(ranges: Seq<(ServerId, LspRange)>, sid: ServerId) -> Option<
    LspRange,
>
    decreases ranges.len(),
{
    if ranges.len() == 0 {
        Option::None
    } else if ranges[0].0 == sid {
        Option::Some(ranges[0].1)
    } else {
        spec_lookup_range(ranges.drop_first(), sid)
    }
}

fn lookup_range(ranges: &Vec<(ServerId, LspRange)>, sid: ServerId) -> (r: Option<LspRange>)
    ensures
        r == spec_lookup_range(ranges@, sid),
{
    let mut i: usize = 0;
    proof {
        assert(ranges@.skip(0) =~= ranges@);
    }
    while i < ranges.len()
        invariant
            i <= ranges@.len(),
            spec_lookup_range(ranges@, sid) == spec_lookup_range(ranges@.skip(i as int), sid),
        decreases ranges@.len() - i,
    {
        proof {
            assert(ranges@.skip(i as int)[0] == ranges@[i as int]);
            assert(ranges@.skip(i as int).drop_first() =~= ranges@.skip(i as int + 1));
        }
        if ranges[i].0 == sid {
            return Option::Some(ranges[i].1);
        }
        i = i + 1;
    }
    Option::None
}

/// One batch entry pleads for the whole-line retry: the server answered
/// an empty list and its registered range had a non-zero column span
/// (start not at column zero, end not at the end-of-line sentinel).
/// Servers without a registered range do not object.
pub open spec fn spec_entry_allows_retry(
    e: (ServerId, Option<Vec<ActionOrCommand>>),
    ranges: Seq<(ServerId, LspRange)>,
) -> bool {
    match spec_lookup_range(ranges, e.0) {
        Option::Some(range) => e.1 is Some && e.1->0@.len() == 0 && range.start.character != 0
            && range.end.character != EOL_OFFSET,
        Option::None => true,
    }
}

/// The whole-line retry fires for an interactive request when every
/// batch entry allows it.
pub open spec fn spec_should_retry(
    hook: bool,
    results: Seq<(ServerId, Option<Vec<ActionOrCommand>>)>,
    ranges: Seq<(ServerId, LspRange)>,
) -> bool {
    !hook && forall|i: int|
        0 <= i < results.len() ==> spec_entry_allows_retry(#[trigger] results[i], ranges)
}

fn should_retry(
    hook: bool,
    results: &Vec<(ServerId, Option<Vec<ActionOrCommand>>)>,
    ranges: &Vec<(ServerId, LspRange)>,
) -> (r: bool)
    ensures
        r == spec_should_retry(hook, results@, ranges@),
{
    if hook {
        return false;
    }
    let mut i: usize = 0;
    while i < results.len()
        invariant
            i <= results@.len(),
            forall|j: int| 0 <= j < i ==> spec_entry_allows_retry(#[trigger] results@[j], ranges@),
        decreases results@.len() - i,
    {
        match lookup_range(ranges, results[i].0) {
            Option::Some(range) => {
                let empty_answer = match &results[i].1 {
                    Option::Some(v) => v.len() == 0,
                    Option::None => false,
                };
                if !(empty_answer && range.start.character != 0 && range.end.character
                    != EOL_OFFSET) {
                    return false;
                }
            },
            Option::None => {},
        }
        i = i + 1;
    }
    true
}

/// A range widened to whole lines: the start moves to column zero, the
/// end to the last byte boundary of its line under the server's encoding.
pub open spec fn spec_widen_range(
    r: LspRange,
    lines: Seq<Vec<char>>,
    enc: crate::types::OffsetEncoding,
) -> LspRange {
    let line = line_at(lines, r.end.line as int);
    let bl = byte_length(line);
    let target: int = if bl >= 1 {
        bl - 1
    } else {
        0
    };
    LspRange {
        start: LspPosition { line: r.start.line, character: 0 },
        end: LspPosition {
            line: r.end.line,
            character: bytes_to_units(line, target, enc) as u32,
        },
    }
}

/// Every registered range widened under its server's encoding.
pub open spec fn spec_widened_ranges(
    ranges: Seq<(ServerId, LspRange)>,
    lines: Seq<Vec<char>>,
    regs: Seq<crate::types::ServerSettings>,
) -> Seq<(ServerId, LspRange)> {
    ranges.map_values(
        |e: (ServerId, LspRange)| (e.0, spec_widen_range(e.1, lines, regs[e.0 as int].offset_encoding)),
    )
}

/// Server ids of the batch point into the registry.
pub open spec fn range_ids_wf(ranges: Seq<(ServerId, LspRange)>, n_servers: int) -> bool {
    forall|i: int| 0 <= i < ranges.len() ==> (#[trigger] ranges[i]).0 < n_servers
}

fn widen_ranges(
    ranges: &Vec<(ServerId, LspRange)>,
    doc_lines: &Vec<Vec<char>>,
    registry: &ServerRegistry,
) -> (r: Vec<(ServerId, LspRange)>)
    requires
        range_ids_wf(ranges@, registry.servers@.len() as int),
        lines_fit(doc_lines@),
    ensures
        r@ == spec_widened_ranges(ranges@, doc_lines@, registry.servers@),
{
    let ghost mapped = spec_widened_ranges(ranges@, doc_lines@, registry.servers@);
    let mut out: Vec<(ServerId, LspRange)> = Vec::new();
    let mut i: usize = 0;
    let empty_line: Vec<char> = Vec::new();
    proof {
        assert(out@ =~= mapped.take(0));
    }
    while i < ranges.len()
        invariant
            i <= ranges@.len(),
            range_ids_wf(ranges@, registry.servers@.len() as int),
            lines_fit(doc_lines@),
            empty_line@.len() == 0,
            mapped == spec_widened_ranges(ranges@, doc_lines@, registry.servers@),
            out@ == mapped.take(i as int),
        decreases ranges@.len() - i,
    {
        let sid = ranges[i].0;
        let rr = ranges[i].1;
        let enc = registry.get(sid).offset_encoding;
        let line = crate::position::get_line(doc_lines, rr.end.line as usize, &empty_line);
        let bl = crate::position::line_byte_length(line);
        let target: u32 = if bl >= 1 {
            bl - 1
        } else {
            0
        };
        let ch = crate::position::bytes_to_units_exec(line, target, enc);
        proof {
            crate::position::lemma_bytes_to_units_bounds(
                line_at(doc_lines@, rr.end.line as int),
                target as int,
                enc,
            );
            crate::position::lemma_unit_le_byte_length(
                line_at(doc_lines@, rr.end.line as int),
                enc,
            );
        }
        let widened = LspRange {
            start: LspPosition { line: rr.start.line, character: 0 },
            end: LspPosition { line: rr.end.line, character: ch },
        };
        out.push((sid, widened));
        proof {
            assert(mapped[i as int] == (sid, spec_widen_range(rr, doc_lines@, enc)));
            assert(widened == spec_widen_range(rr, doc_lines@, enc));
            assert(mapped.take(i as int + 1) =~= mapped.take(i as int).push(mapped[i as int]));
        }
        i = i + 1;
    }
    proof {
        assert(mapped.take(mapped.len() as int) =~= mapped);
    }
    out
}

/// All answer items, flattened in batch order and tagged with their
/// server.
pub open spec fn spec_flatten_actions(
    results: Seq<(ServerId, Option<Vec<ActionOrCommand>>)>,
) -> Seq<(ServerId, ActionOrCommand)>
    decreases results.len(),
{
    if results.len() == 0 {
        Seq::empty()
    } else {
        spec_flatten_actions(results.drop_last()) + (match results.last().1 {
            Option::Some(v) => v@.map_values(|a: ActionOrCommand| (results.last().0, a)),
            Option::None => Seq::empty(),
        })
    }
}

fn flatten_actions(results: Vec<(ServerId, Option<Vec<ActionOrCommand>>)>) -> (r: Vec<
    (ServerId, ActionOrCommand),
>)
    ensures
        r@ == spec_flatten_actions(results@),
{
    let ghost results0 = results@;
    let mut out: Vec<(ServerId, ActionOrCommand)> = Vec::new();
    let mut rest = results;
    let ghost mut i: int = 0;
    proof {
        assert(results0.take(0) =~= Seq::<(ServerId, Option<Vec<ActionOrCommand>>)>::empty());
        assert(results0.skip(0) =~= results0);
        assert(out@ =~= spec_flatten_actions(results0.take(0)));
    }
    while rest.len() > 0
        invariant
            0 <= i <= results0.len(),
            rest@ == results0.skip(i),
            out@ == spec_flatten_actions(results0.take(i)),
        decreases rest@.len(),
    {
        let (sid, answer) = rest.remove(0);
        proof {
            assert((sid, answer) == results0[i]);
            assert(rest@ =~= results0.skip(i + 1));
            assert(results0.take(i + 1).drop_last() =~= results0.take(i));
            assert(results0.take(i + 1).last() == results0[i]);
        }
        match answer {
            Option::Some(v) => {
                let ghost v0 = v@;
                let ghost base = out@;
                let mut items = v;
                let ghost mut j: int = 0;
                proof {
                    assert(v0.skip(0) =~= v0);
                    assert(out@ =~= base + v0.map_values(
                        |a: ActionOrCommand| (sid, a),
                    ).take(0));
                }
                while items.len() > 0
                    invariant
                        0 <= j <= v0.len(),
                        items@ == v0.skip(j),
                        out@ == base + v0.map_values(|a: ActionOrCommand| (sid, a)).take(j),
                    decreases items@.len(),
                {
                    let a = items.remove(0);
                    proof {
                        assert(a == v0[j]);
                        assert(items@ =~= v0.skip(j + 1));
                    }
                    let ghost prev = out@;
                    out.push((sid, a));
                    proof {
                        let mapped = v0.map_values(|a: ActionOrCommand| (sid, a));
                        assert(mapped.take(j + 1) =~= mapped.take(j).push(mapped[j]));
                        assert(mapped[j] == (sid, v0[j]));
                        assert(out@ =~= base + mapped.take(j + 1));
                        j = j + 1;
                    }
                }
                proof {
                    let mapped = v0.map_values(|a: ActionOrCommand| (sid, a));
                    assert(mapped.take(v0.len() as int) =~= mapped);
                    assert(out@ =~= spec_flatten_actions(results0.take(i + 1)));
                }
            },
            Option::None => {
                proof {
                    assert(out@ =~= spec_flatten_actions(results0.take(i + 1)));
                }
            },
        }
        proof {
            i = i + 1;
        }
    }
    proof {
        assert(results0.take(results0.len() as int) =~= results0);
    }
    out
}

/// A server may be sent a later `codeAction/resolve`: it took part in
/// this batch and advertises the resolve capability.
pub open spec fn spec_may_resolve(
    ranges: Seq<(ServerId, LspRange)>,
    regs: Seq<crate::types::ServerSettings>,
    sid: ServerId,
) -> bool {
    &&& exists|i: int| 0 <= i < ranges.len() && (#[trigger] ranges[i]).0 == sid
    &&& sid < regs.len()
    &&& regs[sid as int].capabilities.code_actions_resolve
}

fn may_resolve_exec(
    ranges: &Vec<(ServerId, LspRange)>,
    registry: &ServerRegistry,
    sid: ServerId,
) -> (r: bool)
    ensures
        r == spec_may_resolve(ranges@, registry.servers@, sid),
{
    let mut found = false;
    let mut i: usize = 0;
    while i < ranges.len()
        invariant
            i <= ranges@.len(),
            found == exists|j: int| 0 <= j < i && (#[trigger] ranges@[j]).0 == sid,
        decreases ranges@.len() - i,
    {
        if ranges[i].0 == sid {
            found = true;
        }
        i = i + 1;
    }
    if !found {
        return false;
    }
    if sid >= registry.servers.len() {
        return false;
    }
    registry.servers[sid].capabilities.code_actions_resolve
}

/// The answer items whose title the user's pattern matches, in order.
pub open spec fn spec_filter_actions(
    actions: Seq<(ServerId, ActionOrCommand)>,
    pattern: Seq<char>,
) -> Seq<(ServerId, ActionOrCommand)>
    decreases actions.len(),
{
    if actions.len() == 0 {
        Seq::empty()
    } else {
        spec_filter_actions(actions.drop_last(), pattern) + if regex_matches(
            pattern,
            aoc_title(actions.last().1),
        ) {
            seq![actions.last()]
        } else {
            Seq::empty()
        }
    }
}

fn filter_actions(
    actions: Vec<(ServerId, ActionOrCommand)>,
    pattern: &str,
) -> (r: Vec<(ServerId, ActionOrCommand)>)
    requires
        regex_pattern_valid(pattern@),
    ensures
        r@ == spec_filter_actions(actions@, pattern@),
{
    let ghost actions0 = actions@;
    let mut out: Vec<(ServerId, ActionOrCommand)> = Vec::new();
    let mut rest = actions;
    let ghost mut i: int = 0;
    proof {
        assert(actions0.take(0) =~= Seq::<(ServerId, ActionOrCommand)>::empty());
        assert(actions0.skip(0) =~= actions0);
        assert(out@ =~= spec_filter_actions(actions0.take(0), pattern@));
    }
    while rest.len() > 0
        invariant
            0 <= i <= actions0.len(),
            rest@ == actions0.skip(i),
            out@ == spec_filter_actions(actions0.take(i), pattern@),
            regex_pattern_valid(pattern@),
        decreases rest@.len(),
    {
        let e = rest.remove(0);
        proof {
            assert(e == actions0[i]);
            assert(rest@ =~= actions0.skip(i + 1));
            assert(actions0.take(i + 1).drop_last() =~= actions0.take(i));
            assert(actions0.take(i + 1).last() == actions0[i]);
        }
        let title_matches = {
            let title: &String = match &e.1 {
                ActionOrCommand::Command(c) => &c.title,
                ActionOrCommand::Action(action) => &action.title,
            };
            match regex_match_text(pattern, title.as_str()) {
                Option::Some(m) => m,
                Option::None => {
                    proof {
                        assert(false);
                    }
                    false
                },
            }
        };
        if title_matches {
            let ghost prev = out@;
            out.push(e);
            proof {
                assert(out@ =~= prev + seq![actions0[i]]);
            }
        } else {
            proof {
                assert(out@ =~= out@ + Seq::<(ServerId, ActionOrCommand)>::empty());
            }
        }
        proof {
            i = i + 1;
        }
    }
    proof {
        assert(actions0.take(actions0.len() as int) =~= actions0);
    }
    out
}

/// Each answer item tagged with its kind bucket, in batch order.
pub open spec fn bucket_tagged(actions: Seq<(ServerId, ActionOrCommand)>) -> Seq<
    (u64, (ServerId, ActionOrCommand)),
> {
    Seq::new(actions.len(), |i: int| (bucket_of(actions[i].1), actions[i]))
}

/// The answer items in presentation order: stably sorted by kind bucket.
pub open spec fn spec_sorted_actions(actions: Seq<(ServerId, ActionOrCommand)>) -> Seq<
    (u64, (ServerId, ActionOrCommand)),
> {
    sort_by_key(bucket_tagged(actions))
}

fn sort_actions(actions: Vec<(ServerId, ActionOrCommand)>) -> (r: Vec<
    (u64, (ServerId, ActionOrCommand)),
>)
    ensures
        r@ == spec_sorted_actions(actions@),
{
    let ghost actions0 = actions@;
    let mut tagged: Vec<(u64, (ServerId, ActionOrCommand))> = Vec::new();
    let mut rest = actions;
    let ghost mut i: int = 0;
    proof {
        assert(actions0.skip(0) =~= actions0);
        assert(tagged@ =~= bucket_tagged(actions0).take(0));
    }
    while rest.len() > 0
        invariant
            0 <= i <= actions0.len(),
            rest@ == actions0.skip(i),
            tagged@ == bucket_tagged(actions0).take(i),
        decreases rest@.len(),
    {
        let e = rest.remove(0);
        proof {
            assert(e == actions0[i]);
            assert(rest@ =~= actions0.skip(i + 1));
        }
        let bucket = bucket_of_exec(&e.1);
        tagged.push((bucket, e));
        proof {
            let bt = bucket_tagged(actions0);
            assert(bt.take(i + 1) =~= bt.take(i).push(bt[i]));
            assert(bt[i] == (bucket_of(actions0[i].1), actions0[i]));
            i = i + 1;
        }
    }
    proof {
        assert(bucket_tagged(actions0).take(actions0.len() as int) =~= bucket_tagged(actions0));
    }
    crate::sorting::sort_pairs_by_key(tagged)
}

/// The presentation order is a stable permutation under the bucket order:
/// buckets never decrease along the output, the output carries exactly
/// the input's items, and items of one bucket keep their relative order.
pub proof fn lemma_code_action_order(actions: Seq<(ServerId, ActionOrCommand)>)
    ensures
        forall|i: int, j: int|
            0 <= i < j < spec_sorted_actions(actions).len() ==> bucket_of(
                #[trigger] spec_sorted_actions(actions)[i].1.1,
            ) <= bucket_of(#[trigger] spec_sorted_actions(actions)[j].1.1),
        spec_sorted_actions(actions).to_multiset() == bucket_tagged(actions).to_multiset(),
        forall|k: u64|
            crate::sorting::entries_with_key(#[trigger] spec_sorted_actions(actions), k)
                == crate::sorting::entries_with_key(bucket_tagged(actions), k),
{
    let bt = bucket_tagged(actions);
    crate::sorting::lemma_sort_by_key_sorted(bt);
    crate::sorting::lemma_sort_by_key_multiset(bt);
    crate::sorting::lemma_sort_by_key_contains(bt);
    assert forall|k: u64|
        crate::sorting::entries_with_key(#[trigger] spec_sorted_actions(actions), k)
            == crate::sorting::entries_with_key(bt, k) by {
        crate::sorting::lemma_sort_by_key_stable(bt, k);
    }
    assert forall|i: int, j: int|
        0 <= i < j < spec_sorted_actions(actions).len() implies bucket_of(
        #[trigger] spec_sorted_actions(actions)[i].1.1,
    ) <= bucket_of(#[trigger] spec_sorted_actions(actions)[j].1.1) by {
        let sorted = sort_by_key(bt);
        assert(sorted[i].0 <= sorted[j].0);
        assert(bt.contains(sorted[i]));
        assert(bt.contains(sorted[j]));
        let wi = choose|w: int| 0 <= w < bt.len() && bt[w] == sorted[i];
        let wj = choose|w: int| 0 <= w < bt.len() && bt[w] == sorted[j];
        assert(bt[wi].0 == bucket_of(bt[wi].1.1));
        assert(bt[wj].0 == bucket_of(bt[wj].1.1));
    }
}

/// The user's optional filter: restrict the request to kinds, or filter
/// the answers' titles by a regex.
pub enum CodeActionFilter {
    ByKind(Vec<String>),
    ByRegex(String),
}

/// The request-shaping parameters of a code-action command.
pub struct CodeActionsParams {
    pub selection_desc: String,
    pub filters: Option<CodeActionFilter>,
    pub auto_single: bool,
    pub perform_code_action: bool,
}

/// What the continuation asks the surrounding loop to do.
pub enum CodeActionsOutcome {
    /// Re-dispatch once with these widened ranges, under the same batch
    /// key.
    Retry(Vec<(ServerId, LspRange)>),
    /// The buffer vanished before the retry could be prepared.
    MissingDocument,
    /// The buffer moved on since dispatch; drop the reply.
    StaleDocument,
    /// Show this error to the user.
    ShowError(String),
    /// Evaluate this single selected action.
    Execute(String),
    /// Send this script to the editor.
    Show(String),
}

/// A title clipped to its first line.
pub open spec fn spec_title_head(t: Seq<char>) -> Seq<char> {
    t.take(find_char(t, '\n'))
}

/// One `(title, select-command)` pair, both quoted.
pub open spec fn spec_action_pair(
    e: (ServerId, ActionOrCommand),
    regs: Seq<crate::types::ServerSettings>,
    ranges: Seq<(ServerId, LspRange)>,
) -> Seq<char> {
    editor_quote_seq(spec_title_head(aoc_title(e.1))) + seq![' '] + editor_quote_seq(
        spec_aoc_command(
            regs[e.0 as int].name@,
            e.1,
            false,
            spec_may_resolve(ranges, regs, e.0),
        ),
    )
}

/// The `-auto-single` switch and the pairs of all actions in
/// presentation order.
pub open spec fn spec_titles_and_commands(
    actions: Seq<(ServerId, ActionOrCommand)>,
    regs: Seq<crate::types::ServerSettings>,
    ranges: Seq<(ServerId, LspRange)>,
    auto_single: bool,
) -> Seq<char> {
    (if auto_single {
        "-auto-single "@
    } else {
        Seq::empty()
    }) + join_with(
        spec_sorted_actions(actions).map_values(
            |p: (u64, (ServerId, ActionOrCommand))| spec_action_pair(p.1, regs, ranges),
        ),
        " "@,
    )
}

/// Clips a title to its first line.
fn title_head_chars(title: &str) -> (r: Vec<char>)
    ensures
        r@ == spec_title_head(title@),
{
    let cs = crate::strutil::str_chars(title);
    let mut out: Vec<char> = Vec::new();
    let mut t: usize = 0;
    proof {
        crate::parse::lemma_find_char(cs@, '\n');
        assert(cs@.take(0) =~= Seq::<char>::empty());
    }
    while t < cs.len() && cs[t] != '\n'
        invariant
            t <= cs@.len(),
            cs@ == title@,
            forall|u: int| 0 <= u < t ==> cs@[u] != '\n',
            out@ == cs@.take(t as int),
        decreases cs@.len() - t,
    {
        proof {
            assert(cs@.take(t as int + 1) =~= cs@.take(t as int).push(cs@[t as int]));
        }
        out.push(cs[t]);
        t = t + 1;
    }
    proof {
        crate::parse::lemma_find_char(cs@, '\n');
        assert(find_char(cs@, '\n') == t as int) by {
            let f = find_char(cs@, '\n');
            if f < t as int {
                assert(cs@[f] == '\n');
            }
            if f > t as int {
                assert(t < cs@.len());
                assert(cs@[t as int] == '\n');
            }
        }
    }
    out
}

/// Renders the `(title, select-command)` pairs of the sorted actions.
fn render_titles_and_commands(
    sorted: &Vec<(u64, (ServerId, ActionOrCommand))>,
    registry: &ServerRegistry,
    ranges: &Vec<(ServerId, LspRange)>,
    auto_single: bool,
    ghost_actions: Ghost<Seq<(ServerId, ActionOrCommand)>>,
) -> (r: Vec<char>)
    requires
        sorted@ == spec_sorted_actions(ghost_actions@),
        forall|t: int|
            0 <= t < sorted@.len() ==> (#[trigger] sorted@[t]).1.0 < registry.servers@.len(),
    ensures
        r@ == spec_titles_and_commands(ghost_actions@, registry.servers@, ranges@, auto_single),
{
    let ghost mapped = spec_sorted_actions(ghost_actions@).map_values(
        |p: (u64, (ServerId, ActionOrCommand))| spec_action_pair(p.1, registry.servers@, ranges@),
    );
    let mut pieces: Vec<Vec<char>> = Vec::new();
    let mut k: usize = 0;
    proof {
        assert(piece_views(pieces@) =~= mapped.take(0));
    }
    while k < sorted.len()
        invariant
            k <= sorted@.len(),
            sorted@ == spec_sorted_actions(ghost_actions@),
            forall|t: int|
                0 <= t < sorted@.len() ==> (#[trigger] sorted@[t]).1.0 < registry.servers@.len(),
            mapped == spec_sorted_actions(ghost_actions@).map_values(
                |p: (u64, (ServerId, ActionOrCommand))| spec_action_pair(
                    p.1,
                    registry.servers@,
                    ranges@,
                ),
            ),
            piece_views(pieces@) == mapped.take(k as int),
        decreases sorted@.len() - k,
    {
        let sid = sorted[k].1.0;
        let a = &sorted[k].1.1;
        let title: &String = match a {
            ActionOrCommand::Command(c) => &c.title,
            ActionOrCommand::Action(action) => &action.title,
        };
        let head = title_head_chars(title.as_str());
        let may_resolve = may_resolve_exec(ranges, registry, sid);
        let select_cmd = code_action_or_command_to_editor_command(
            registry.get(sid).name.as_str(),
            a,
            false,
            may_resolve,
        );
        let mut piece: Vec<char> = Vec::new();
        piece.push('\'');
        let mut qhead = crate::escape::escape_doubling(&head, '\'');
        piece.append(&mut qhead);
        piece.push('\'');
        push_str(&mut piece, " ");
        let quoted_cmd = crate::escape::editor_quote(select_cmd.as_str());
        push_str(&mut piece, quoted_cmd.as_str());
        let ghost prev = piece_views(pieces@);
        proof {
            assert(seq![' '] =~= " "@) by {
                reveal_strlit(" ");
            }
            assert(piece@ =~= spec_action_pair(sorted@[k as int].1, registry.servers@, ranges@));
        }
        pieces.push(piece);
        proof {
            assert(piece_views(pieces@) =~= prev.push(mapped[k as int]));
            assert(mapped.take(k as int + 1) =~= mapped.take(k as int).push(mapped[k as int]));
        }
        k = k + 1;
    }
    proof {
        assert(mapped.take(mapped.len() as int) =~= mapped);
    }
    let joined = join_pieces(&pieces, " ");
    let mut out: Vec<char> = if auto_single {
        crate::strutil::str_chars("-auto-single ")
    } else {
        Vec::new()
    };
    let mut j = joined;
    out.append(&mut j);
    proof {
        if !auto_single {
            assert(out@ =~= spec_titles_and_commands(
                ghost_actions@,
                registry.servers@,
                ranges@,
                auto_single,
            ));
        } else {
            assert(out@ =~= spec_titles_and_commands(
                ghost_actions@,
                registry.servers@,
                ranges@,
                auto_single,
            ));
        }
    }
    out
}

/// The batch entries' server ids point into the registry.
pub open spec fn result_ids_wf(
    results: Seq<(ServerId, Option<Vec<ActionOrCommand>>)>,
    n_servers: int,
) -> bool {
    forall|i: int| 0 <= i < results.len() ==> (#[trigger] results[i]).0 < n_servers
}

/// The continuation of a code-action batch. A reply against a vanished
/// buffer or a buffer that moved past the version captured at dispatch
/// time is dropped before anything else; then the function decides among
/// the whole-line retry (interactive request, all answers empty, all
/// ranges with a non-zero column span), the synchronous or
/// regex-filtered single-answer path, and the interactive list, with
/// every produced script pinned.
pub fn editor_code_actions(
    meta: &EditorMeta,
    results: Vec<(ServerId, Option<Vec<ActionOrCommand>>)>,
    params: &CodeActionsParams,
    version: i32,
    ranges: Vec<(ServerId, LspRange)>,
    document: Option<&Document>,
    registry: &ServerRegistry,
    indicator: &str,
) -> (r: CodeActionsOutcome)
    requires
        result_ids_wf(results@, registry.servers@.len() as int),
        range_ids_wf(ranges@, registry.servers@.len() as int),
        match document {
            Option::Some(doc) => lines_fit(doc.lines@),
            Option::None => true,
        },
    ensures
        ({
            let retry = spec_should_retry(meta.hook, results@, ranges@);
            let sync = meta.fifo is Some;
            let actions = spec_flatten_actions(results@);
            let regs = registry.servers@;
            let live = document is Some && document->0.version == version;
            &&& (document is None ==> r is MissingDocument)
            &&& (document is Some && document->0.version != version ==> r is StaleDocument)
            &&& (live && retry ==> r is Retry && r->Retry_0@ == spec_widened_ranges(
                ranges@,
                document->0.lines@,
                regs,
            ))
            &&& (live && !retry ==> match params.filters {
                Option::Some(CodeActionFilter::ByRegex(pat)) => {
                    if !regex_pattern_valid(pat@) {
                        r is ShowError && crate::strutil::is_prefix(
                            "invalid pattern: "@,
                            r->ShowError_0@,
                        )
                    } else {
                        spec_single_answer_outcome(
                            spec_filter_actions(actions, pat@),
                            regs,
                            ranges@,
                            sync,
                            r,
                        )
                    }
                },
                _ => {
                    if sync {
                        spec_single_answer_outcome(actions, regs, ranges@, sync, r)
                    } else {
                        spec_list_outcome(
                            actions,
                            regs,
                            ranges@,
                            params.auto_single,
                            params.perform_code_action,
                            indicator@,
                            r,
                        )
                    }
                },
            })
        }),
{
    let sync = meta.fifo.is_some();
    let doc = match document {
        Option::Some(doc) => doc,
        Option::None => {
            return CodeActionsOutcome::MissingDocument;
        },
    };
    if doc.version != version {
        return CodeActionsOutcome::StaleDocument;
    }
    if should_retry(meta.hook, &results, &ranges) {
        let widened = widen_ranges(&ranges, &doc.lines, registry);
        return CodeActionsOutcome::Retry(widened);
    }
    let actions = flatten_actions(results);
    proof {
        lemma_flatten_ids(results@, registry.servers@.len() as int);
    }
    let ghost actions0 = actions@;
    let regex_pattern: Option<&String> = match &params.filters {
        Option::Some(CodeActionFilter::ByRegex(pat)) => Option::Some(pat),
        _ => Option::None,
    };
    if sync || regex_pattern.is_some() {
        let actions = match regex_pattern {
            Option::Some(pat) => {
                match regex_compile_check(pat.as_str()) {
                    Result::Ok(_) => {},
                    Result::Err(e) => {
                        let mut msg = crate::strutil::str_chars("invalid pattern: ");
                        push_str(&mut msg, e.as_str());
                        proof {
                            assert(msg@.take("invalid pattern: "@.len() as int)
                                =~= "invalid pattern: "@);
                        }
                        return CodeActionsOutcome::ShowError(
                            crate::strutil::chars_to_string(&msg),
                        );
                    },
                }
                let f = filter_actions(actions, pat.as_str());
                proof {
                    lemma_filter_actions_ids(
                        actions0,
                        pat@,
                        registry.servers@.len() as int,
                    );
                }
                f
            },
            Option::None => actions,
        };
        if actions.len() == 0 {
            return CodeActionsOutcome::ShowError(
                "lsp-code-actions: no matching action available".to_owned(),
            );
        }
        if actions.len() == 1 {
            let sid = actions[0].0;
            let may_resolve = may_resolve_exec(&ranges, registry, sid);
            let cmd = code_action_or_command_to_editor_command(
                registry.get(sid).name.as_str(),
                &actions[0].1,
                sync,
                may_resolve,
            );
            let mut out = crate::strutil::str_chars("evaluate-commands -- ");
            let quoted = crate::escape::editor_quote(cmd.as_str());
            push_str(&mut out, quoted.as_str());
            return CodeActionsOutcome::Execute(crate::strutil::chars_to_string(&out));
        }
        return CodeActionsOutcome::ShowError(
            "lsp-code-actions: multiple matching actions".to_owned(),
        );
    }
    let sorted = sort_actions(actions);
    proof {
        lemma_sorted_ids(actions0, registry.servers@.len() as int);
    }
    let titles = render_titles_and_commands(
        &sorted,
        registry,
        &ranges,
        params.auto_single,
        Ghost(actions0),
    );
    let empty_list = sorted.len() == 0;
    proof {
        crate::sorting::lemma_sort_by_key_contains(bucket_tagged(actions0));
    }
    if params.perform_code_action {
        if empty_list {
            return CodeActionsOutcome::ShowError("no actions available".to_owned());
        }
        let mut out = crate::strutil::str_chars("lsp-perform-code-action ");
        let mut t = titles;
        out.append(&mut t);
        push_str(&mut out, "\n");
        return CodeActionsOutcome::Show(crate::strutil::chars_to_string(&out));
    }
    if empty_list {
        return CodeActionsOutcome::Show("lsp-hide-code-actions\n".to_owned());
    }
    let mut inner = crate::strutil::str_chars("set-option global lsp_code_action_indicator ");
    push_str(&mut inner, indicator);
    push_str(&mut inner, "\nlsp-show-code-actions ");
    let mut t = titles;
    inner.append(&mut t);
    push_str(&mut inner, "\n");
    let mut out = crate::strutil::str_chars("evaluate-commands -- ");
    out.push('\'');
    let mut quoted = crate::escape::escape_doubling(&inner, '\'');
    out.append(&mut quoted);
    out.push('\'');
    proof {
        assert(inner@ =~= "set-option global lsp_code_action_indicator "@ + indicator@
            + "\nlsp-show-code-actions "@ + spec_titles_and_commands(
            actions0,
            registry.servers@,
            ranges@,
            params.auto_single,
        ) + "\n"@);
        assert(out@ =~= "evaluate-commands -- "@ + editor_quote_seq(inner@));
    }
    CodeActionsOutcome::Show(crate::strutil::chars_to_string(&out))
}

/// The synchronous / filtered path: exactly one answer is evaluated;
/// none or several become an error message.
pub open spec fn spec_single_answer_outcome(
    acts: Seq<(ServerId, ActionOrCommand)>,
    regs: Seq<crate::types::ServerSettings>,
    ranges: Seq<(ServerId, LspRange)>,
    sync: bool,
    r: CodeActionsOutcome,
) -> bool {
    if acts.len() == 0 {
        r is ShowError && r->ShowError_0@ == "lsp-code-actions: no matching action available"@
    } else if acts.len() == 1 {
        r is Execute && r->Execute_0@ == "evaluate-commands -- "@ + editor_quote_seq(
            spec_aoc_command(
                regs[acts[0].0 as int].name@,
                acts[0].1,
                sync,
                spec_may_resolve(ranges, regs, acts[0].0),
            ),
        )
    } else {
        r is ShowError && r->ShowError_0@ == "lsp-code-actions: multiple matching actions"@
    }
}

/// The interactive list path: perform, hide, or show with the indicator.
pub open spec fn spec_list_outcome(
    actions: Seq<(ServerId, ActionOrCommand)>,
    regs: Seq<crate::types::ServerSettings>,
    ranges: Seq<(ServerId, LspRange)>,
    auto_single: bool,
    perform: bool,
    indicator: Seq<char>,
    r: CodeActionsOutcome,
) -> bool {
    let titles = spec_titles_and_commands(actions, regs, ranges, auto_single);
    if perform {
        if actions.len() == 0 {
            r is ShowError && r->ShowError_0@ == "no actions available"@
        } else {
            r is Show && r->Show_0@ == "lsp-perform-code-action "@ + titles + "\n"@
        }
    } else {
        if actions.len() == 0 {
            r is Show && r->Show_0@ == "lsp-hide-code-actions\n"@
        } else {
            r is Show && r->Show_0@ == "evaluate-commands -- "@ + editor_quote_seq(
                "set-option global lsp_code_action_indicator "@ + indicator
                    + "\nlsp-show-code-actions "@ + titles + "\n"@,
            )
        }
    }
}

/// Flattened items keep server ids of the batch.
proof fn lemma_flatten_ids(
    results: Seq<(ServerId, Option<Vec<ActionOrCommand>>)>,
    n_servers: int,
)
    requires
        forall|i: int| 0 <= i < results.len() ==> (#[trigger] results[i]).0 < n_servers,
    ensures
        forall|i: int|
            0 <= i < spec_flatten_actions(results).len() ==> (
            #[trigger] spec_flatten_actions(results)[i]).0 < n_servers,
    decreases results.len(),
{
    if results.len() > 0 {
        assert(forall|i: int|
            0 <= i < results.drop_last().len() ==> results.drop_last()[i] == #[trigger] results[i]);
        lemma_flatten_ids(results.drop_last(), n_servers);
        let f = spec_flatten_actions(results);
        let f0 = spec_flatten_actions(results.drop_last());
        assert(results[results.len() - 1] == results.last());
        assert forall|i: int| 0 <= i < f.len() implies (#[trigger] f[i]).0 < n_servers by {
            if i < f0.len() {
                assert(f[i] == f0[i]);
            } else {
                match results.last().1 {
                    Option::Some(v) => {
                        let mapped = v@.map_values(
                            |a: ActionOrCommand| (results.last().0, a),
                        );
                        assert(f[i] == mapped[i - f0.len()]);
                        assert(mapped[i - f0.len()].0 == results.last().0);
                    },
                    Option::None => {},
                }
            }
        }
    }
}

/// Entries surviving the title filter keep server ids of the batch.
proof fn lemma_filter_actions_ids(
    actions: Seq<(ServerId, ActionOrCommand)>,
    pat: Seq<char>,
    n_servers: int,
)
    requires
        forall|i: int| 0 <= i < actions.len() ==> (#[trigger] actions[i]).0 < n_servers,
    ensures
        forall|i: int|
            0 <= i < spec_filter_actions(actions, pat).len() ==> (
            #[trigger] spec_filter_actions(actions, pat)[i]).0 < n_servers,
    decreases actions.len(),
{
    if actions.len() > 0 {
        assert(forall|i: int|
            0 <= i < actions.drop_last().len() ==> actions.drop_last()[i] == #[trigger] actions[i]);
        lemma_filter_actions_ids(actions.drop_last(), pat, n_servers);
        let f = spec_filter_actions(actions, pat);
        let f0 = spec_filter_actions(actions.drop_last(), pat);
        assert forall|i: int| 0 <= i < f.len() implies (#[trigger] f[i]).0 < n_servers by {
            if i < f0.len() {
                assert(f[i] == f0[i]);
            } else {
                assert(f[i] == actions.last());
                assert(actions[actions.len() - 1] == actions.last());
            }
        }
    }
}

/// Sorted entries keep server ids of the batch.
proof fn lemma_sorted_ids(actions: Seq<(ServerId, ActionOrCommand)>, n_servers: int)
    requires
        forall|i: int| 0 <= i < actions.len() ==> (#[trigger] actions[i]).0 < n_servers,
    ensures
        forall|t: int|
            0 <= t < spec_sorted_actions(actions).len() ==> (
            #[trigger] spec_sorted_actions(actions)[t]).1.0 < n_servers,
{
    let bt = bucket_tagged(actions);
    crate::sorting::lemma_sort_by_key_contains(bt);
    assert forall|t: int|
        0 <= t < spec_sorted_actions(actions).len() implies (
    #[trigger] spec_sorted_actions(actions)[t]).1.0 < n_servers by {
        assert(bt.contains(spec_sorted_actions(actions)[t]));
        let w = choose|w: int| 0 <= w < bt.len() && bt[w] == spec_sorted_actions(actions)[t];
        assert(bt[w].1 == actions[w]);
    }
}

/// What the code-action entry point asks for.
pub enum CodeActionsRequest {
    /// No consulted server advertises code actions: silently do nothing.
    Nothing,
    /// The buffer is unknown: show this error when interactive.
    MissingDocument(String),
    /// Dispatch the batch: the captured version and, per eligible server,
    /// the selection translated under that server's encoding.
    Dispatch { version: i32, ranges: Vec<(ServerId, LspRange)> },
}

/// The selection of a code-action request, translated for one server.
pub open spec fn spec_selection_lsp_range(
    selection_desc: Seq<char>,
    lines: Seq<Vec<char>>,
    enc: crate::types::OffsetEncoding,
) -> LspRange {
    let er = crate::parse::range_desc_value(selection_desc);
    LspRange {
        start: crate::position::editor_position_to_lsp_spec(er.start, lines, enc),
        end: crate::position::editor_position_to_lsp_spec(er.end, lines, enc),
    }
}

/// The code-action entry point: keeps the servers that advertise the
/// capability, and hands each the selection under its own encoding,
/// together with the captured document version.
pub fn text_document_code_action(
    meta: &EditorMeta,
    params: &CodeActionsParams,
    registry: &ServerRegistry,
    document: Option<&Document>,
) -> (r: CodeActionsRequest)
    requires
        crate::parse::valid_range_desc(params.selection_desc@),
        crate::parse::range_desc_value(params.selection_desc@).start.line >= 1,
        crate::parse::range_desc_value(params.selection_desc@).start.column >= 1,
        crate::parse::range_desc_value(params.selection_desc@).end.line >= 1,
        crate::parse::range_desc_value(params.selection_desc@).end.column >= 1,
        match document {
            Option::Some(doc) => lines_fit(doc.lines@),
            Option::None => true,
        },
    ensures
        ({
            let any = exists|id: ServerId|
                crate::dispatch::spec_eligible(registry, meta, Feature::CodeActions, id);
            &&& (r is Nothing <==> !any)
            &&& (r is MissingDocument <==> any && document is None)
            &&& (r is MissingDocument ==> r->MissingDocument_0@ == "Missing document for "@
                + meta.buffile@)
            &&& (r is Dispatch <==> any && document is Some)
            &&& (r is Dispatch ==> {
                let ranges = r->Dispatch_ranges@;
                let lines = document->0.lines@;
                &&& r->Dispatch_version == document->0.version
                &&& forall|k: int|
                    0 <= k < ranges.len() ==> crate::dispatch::spec_eligible(
                        registry,
                        meta,
                        Feature::CodeActions,
                        (#[trigger] ranges[k]).0,
                    )
                &&& forall|k1: int, k2: int|
                    0 <= k1 < k2 < ranges.len() ==> ranges[k1].0 < ranges[k2].0
                &&& forall|id: ServerId|
                    crate::dispatch::spec_eligible(registry, meta, Feature::CodeActions, id)
                        ==> exists|k: int| 0 <= k < ranges.len() && (#[trigger] ranges[k]).0 == id
                &&& forall|k: int|
                    0 <= k < ranges.len() ==> (#[trigger] ranges[k]).1
                        == spec_selection_lsp_range(
                        params.selection_desc@,
                        lines,
                        registry.servers@[ranges[k].0 as int].offset_encoding,
                    )
            })
        }),
{
    let eligible = crate::dispatch::eligible_servers(registry, meta, Feature::CodeActions);
    if eligible.len() == 0 {
        proof {
            assert forall|id: ServerId|
                !crate::dispatch::spec_eligible(
                    registry,
                    meta,
                    Feature::CodeActions,
                    id,
                ) by {
                if crate::dispatch::spec_eligible(registry, meta, Feature::CodeActions, id) {
                    assert(eligible@.contains(id));
                }
            }
        }
        return CodeActionsRequest::Nothing;
    }
    proof {
        assert(crate::dispatch::spec_eligible(
            registry,
            meta,
            Feature::CodeActions,
            eligible@[0],
        ));
    }
    let doc = match document {
        Option::Some(doc) => doc,
        Option::None => {
            let mut msg = crate::strutil::str_chars("Missing document for ");
            push_str(&mut msg, meta.buffile.as_str());
            return CodeActionsRequest::MissingDocument(crate::strutil::chars_to_string(&msg));
        },
    };
    let er = match crate::parse::parse_kakoune_range(params.selection_desc.as_str()) {
        Option::Some(er) => er,
        Option::None => {
            proof {
                assert(false);
            }
            EditorRange {
                start: crate::types::EditorPosition { line: 1, column: 1 },
                end: crate::types::EditorPosition { line: 1, column: 1 },
            }
        },
    };
    let mut ranges: Vec<(ServerId, LspRange)> = Vec::new();
    let mut i: usize = 0;
    while i < eligible.len()
        invariant
            i <= eligible@.len(),
            er == crate::parse::range_desc_value(params.selection_desc@),
            er.start.line >= 1 && er.start.column >= 1 && er.end.line >= 1 && er.end.column >= 1,
            lines_fit(doc.lines@),
            forall|k: int|
                0 <= k < eligible@.len() ==> crate::dispatch::spec_eligible(
                    registry,
                    meta,
                    Feature::CodeActions,
                    #[trigger] eligible@[k],
                ),
            forall|k1: int, k2: int|
                0 <= k1 < k2 < eligible@.len() ==> eligible@[k1] < eligible@[k2],
            ranges@.len() == i,
            forall|k: int| 0 <= k < i ==> (#[trigger] ranges@[k]).0 == eligible@[k],
            forall|k: int|
                0 <= k < i ==> (#[trigger] ranges@[k]).1 == spec_selection_lsp_range(
                    params.selection_desc@,
                    doc.lines@,
                    registry.servers@[ranges@[k].0 as int].offset_encoding,
                ),
        decreases eligible@.len() - i,
    {
        let sid = eligible[i];
        let enc = registry.get(sid).offset_encoding;
        let lsp_range = crate::position::editor_range_to_lsp(&er, &doc.lines, enc);
        ranges.push((sid, lsp_range));
        i = i + 1;
    }
    proof {
        assert forall|id: ServerId|
            crate::dispatch::spec_eligible(registry, meta, Feature::CodeActions, id) implies exists|
            k: int,
        | 0 <= k < ranges@.len() && (#[trigger] ranges@[k]).0 == id by {
            assert(eligible@.contains(id));
            let w = choose|w: int| 0 <= w < eligible@.len() && eligible@[w] == id;
            assert(ranges@[w].0 == id);
        }
    }
    CodeActionsRequest::Dispatch { version: doc.version, ranges }
}

/// The cached diagnostics a server's request carries as context: the
/// indices of that server's entries whose range overlaps the range
/// registered for it, in cache order.
pub open spec fn spec_context_indices(
    cache: Seq<(ServerId, crate::types::Diagnostic)>,
    sid: ServerId,
    r: LspRange,
) -> Seq<usize>
    decreases cache.len(),
{
    if cache.len() == 0 {
        Seq::empty()
    } else {
        let p = spec_context_indices(cache.drop_last(), sid, r);
        if cache.last().0 == sid && crate::position::spec_ranges_overlap(
            cache.last().1.range,
            r,
        ) {
            p.push((cache.len() - 1) as usize)
        } else {
            p
        }
    }
}

/// Builds each server's request context: per registered range, the
/// cached diagnostics of that server overlapping the selection, given as
/// cache indices.
pub fn code_actions_for_ranges(
    diagnostics: &Vec<(ServerId, crate::types::Diagnostic)>,
    ranges: &Vec<(ServerId, LspRange)>,
) -> (r: Vec<(ServerId, Vec<usize>)>)
    ensures
        r@.len() == ranges@.len(),
        forall|k: int|
            0 <= k < ranges@.len() ==> (#[trigger] r@[k]).0 == ranges@[k].0 && r@[k].1@
                == spec_context_indices(diagnostics@, ranges@[k].0, ranges@[k].1),
{
    let mut out: Vec<(ServerId, Vec<usize>)> = Vec::new();
    let mut k: usize = 0;
    while k < ranges.len()
        invariant
            k <= ranges@.len(),
            out@.len() == k,
            forall|t: int|
                0 <= t < k ==> (#[trigger] out@[t]).0 == ranges@[t].0 && out@[t].1@
                    == spec_context_indices(diagnostics@, ranges@[t].0, ranges@[t].1),
        decreases ranges@.len() - k,
    {
        let sid = ranges[k].0;
        let rr = ranges[k].1;
        let mut idxs: Vec<usize> = Vec::new();
        let mut i: usize = 0;
        proof {
            assert(diagnostics@.take(0) =~= Seq::<(ServerId, crate::types::Diagnostic)>::empty());
            assert(idxs@ =~= spec_context_indices(diagnostics@.take(0), sid, rr));
        }
        while i < diagnostics.len()
            invariant
                i <= diagnostics@.len(),
                idxs@ == spec_context_indices(diagnostics@.take(i as int), sid, rr),
            decreases diagnostics@.len() - i,
        {
            proof {
                assert(diagnostics@.take(i as int + 1).drop_last() =~= diagnostics@.take(
                    i as int,
                ));
                assert(diagnostics@.take(i as int + 1).last() == diagnostics@[i as int]);
            }
            if diagnostics[i].0 == sid && crate::position::ranges_overlap(
                diagnostics[i].1.range,
                rr,
            ) {
                idxs.push(i);
            }
            i = i + 1;
        }
        proof {
            assert(diagnostics@.take(diagnostics@.len() as int) =~= diagnostics@);
        }
        out.push((sid, idxs));
        k = k + 1;
    }
    out
}

/// The render of a resolved action sent back by `codeAction/resolve`.
pub fn text_document_code_action_resolve(server_name: &str, action: &CodeAction) -> (r: String)
    ensures
        r@ == "evaluate-commands -- "@ + editor_quote_seq(
            spec_code_action_command(server_name@, *action, false, false),
        ),
{
    let cmd = code_action_to_editor_command(server_name, action, false, false);
    let mut out = crate::strutil::str_chars("evaluate-commands -- ");
    let quoted = crate::escape::editor_quote(cmd.as_str());
    push_str(&mut out, quoted.as_str());
    proof {
        assert(out@ =~= "evaluate-commands -- "@ + editor_quote_seq(
            spec_code_action_command(server_name@, *action, false, false),
        ));
    }
    crate::strutil::chars_to_string(&out)
}

} // verus!
