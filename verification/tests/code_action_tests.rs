use kakoune_lsp::code_action::apply_workspace_edit_editor_command;
use kakoune_lsp::code_action::code_actions_for_ranges;
use kakoune_lsp::code_action::editor_code_actions;
use kakoune_lsp::code_action::execute_command_editor_command;
use kakoune_lsp::code_action::text_document_code_action;
use kakoune_lsp::code_action::text_document_code_action_resolve;
use kakoune_lsp::code_action::ActionOrCommand;
use kakoune_lsp::code_action::CodeAction;
use kakoune_lsp::code_action::CodeActionFilter;
use kakoune_lsp::code_action::CodeActionsOutcome;
use kakoune_lsp::code_action::CodeActionsParams;
use kakoune_lsp::code_action::CodeActionsRequest;
use kakoune_lsp::str_chars;
use kakoune_lsp::types::Capabilities;
use kakoune_lsp::types::Diagnostic;
use kakoune_lsp::types::Command;
use kakoune_lsp::types::Document;
use kakoune_lsp::types::EditorMeta;
use kakoune_lsp::types::LspPosition;
use kakoune_lsp::types::LspRange;
use kakoune_lsp::types::OffsetEncoding;
use kakoune_lsp::types::ServerRegistry;
use kakoune_lsp::types::ServerSettings;

fn caps() -> Capabilities {
    Capabilities {
        code_actions: true,
        code_actions_resolve: false,
        code_lens: true,
        formatting: true,
        range_formatting: true,
        rename: true,
        goto: true,
        references: true,
        call_hierarchy: true,
        execute_command: true,
    }
}

fn registry2() -> ServerRegistry {
    ServerRegistry {
        servers: vec![
            ServerSettings {
                name: "alpha".to_string(),
                root_path: "/proj".to_string(),
                offset_encoding: OffsetEncoding::Utf8,
                capabilities: caps(),
            },
            ServerSettings {
                name: "beta".to_string(),
                root_path: "/proj".to_string(),
                offset_encoding: OffsetEncoding::Utf8,
                capabilities: caps(),
            },
        ],
    }
}

fn meta() -> EditorMeta {
    EditorMeta {
        buffile: "/proj/main.rs".to_string(),
        client: "client0".to_string(),
        servers: vec![0, 1],
        hook: false,
        fifo: None,
        write_response_to_fifo: false,
        version: None,
    }
}

fn params() -> CodeActionsParams {
    CodeActionsParams {
        selection_desc: "6.4,6.7".to_string(),
        filters: None,
        auto_single: false,
        perform_code_action: false,
    }
}

fn action(title: &str, kind: Option<&str>) -> ActionOrCommand {
    ActionOrCommand::Action(CodeAction {
        title: title.to_string(),
        kind: kind.map(|k| k.to_string()),
        edit_json: Some(format!("{{\"edit\":\"{}\"}}", title)),
        command: None,
        action_json: format!("{{\"title\":\"{}\"}}", title),
    })
}

fn range(sl: u32, sc: u32, el: u32, ec: u32) -> LspRange {
    LspRange {
        start: LspPosition { line: sl, character: sc },
        end: LspPosition { line: el, character: ec },
    }
}

#[test]
fn entry_translates_selection_per_server() {
    let document = Document { lines: vec![str_chars("0123456789\n"); 7], version: 5 };
    let r = text_document_code_action(&meta(), &params(), &registry2(), Some(&document));
    match r {
        CodeActionsRequest::Dispatch { version, ranges } => {
            assert_eq!(version, 5);
            assert_eq!(ranges.len(), 2);
            assert_eq!(ranges[0].0, 0);
            assert_eq!(ranges[0].1, range(5, 3, 5, 6));
            assert_eq!(ranges[1].0, 1);
        }
        _ => panic!("expected a dispatch"),
    }
}

#[test]
fn entry_reports_missing_document() {
    let r = text_document_code_action(&meta(), &params(), &registry2(), None);
    match r {
        CodeActionsRequest::MissingDocument(msg) => {
            assert_eq!(msg, "Missing document for /proj/main.rs");
        }
        _ => panic!("expected a missing-document error"),
    }
}

#[test]
fn empty_interactive_answers_trigger_whole_line_retry() {
    // both servers returned an empty list and the selection has a
    // non-zero column span: retry on whole lines
    let document = Document { lines: vec![str_chars("0123456789\n"); 7], version: 5 };
    let results: Vec<(usize, Option<Vec<ActionOrCommand>>)> =
        vec![(0, Some(Vec::new())), (1, Some(Vec::new()))];
    let ranges = vec![(0usize, range(5, 3, 5, 6)), (1usize, range(5, 3, 5, 6))];
    let r = editor_code_actions(
        &meta(),
        results,
        &params(),
        5,
        ranges,
        Some(&document),
        &registry2(),
        "💡",
    );
    match r {
        CodeActionsOutcome::Retry(widened) => {
            assert_eq!(widened.len(), 2);
            // start at column zero, end at the last byte boundary of the line
            assert_eq!(widened[0].1, range(5, 0, 5, 10));
        }
        _ => panic!("expected a retry"),
    }
}

#[test]
fn stale_document_drops_the_reply() {
    let document = Document { lines: vec![str_chars("x\n"); 7], version: 8 };
    let results: Vec<(usize, Option<Vec<ActionOrCommand>>)> = vec![(0, Some(Vec::new()))];
    let ranges = vec![(0usize, range(5, 3, 5, 6))];
    let r = editor_code_actions(
        &meta(),
        results,
        &params(),
        7,
        ranges,
        Some(&document),
        &registry2(),
        "[A]",
    );
    assert!(matches!(r, CodeActionsOutcome::StaleDocument));
}

#[test]
fn stale_document_drops_even_a_non_retry_reply() {
    // the answers are non-empty, so no retry fires; the stale version
    // still drops the reply without editor output
    let document = Document { lines: vec![str_chars("x\n"); 7], version: 9 };
    let results: Vec<(usize, Option<Vec<ActionOrCommand>>)> =
        vec![(0, Some(vec![action("Fix", Some("quickfix"))]))];
    let ranges = vec![(0usize, range(5, 0, 5, 1))];
    let r = editor_code_actions(
        &meta(),
        results,
        &params(),
        7,
        ranges,
        Some(&document),
        &registry2(),
        "[A]",
    );
    assert!(matches!(r, CodeActionsOutcome::StaleDocument));
}

#[test]
fn widened_empty_answers_hide_the_lightbulb() {
    // ranges already at column zero: no second retry; empty list hides
    let document = Document { lines: vec![str_chars("x\n"); 7], version: 5 };
    let results: Vec<(usize, Option<Vec<ActionOrCommand>>)> = vec![(0, Some(Vec::new()))];
    let ranges = vec![(0usize, range(5, 0, 5, 1))];
    let r = editor_code_actions(
        &meta(),
        results,
        &params(),
        5,
        ranges,
        Some(&document),
        &registry2(),
        "[A]",
    );
    match r {
        CodeActionsOutcome::Show(cmd) => assert_eq!(cmd, "lsp-hide-code-actions\n"),
        _ => panic!("expected the hide command"),
    }
}

#[test]
fn actions_sort_into_kind_buckets_stably() {
    let document = Document { lines: vec![str_chars("x\n"); 7], version: 5 };
    let results: Vec<(usize, Option<Vec<ActionOrCommand>>)> = vec![(
        0,
        Some(vec![
            action("srcB", Some("source")),
            action("fixA", Some("quickfix")),
            action("other", None),
            action("fixB", Some("quickfix")),
            action("refac", Some("refactor")),
        ]),
    )];
    let ranges = vec![(0usize, range(5, 0, 5, 1))];
    let r = editor_code_actions(
        &meta(),
        results,
        &params(),
        5,
        ranges,
        Some(&document),
        &registry2(),
        "[A]",
    );
    match r {
        CodeActionsOutcome::Show(cmd) => {
            // stable bucket order: quickfix, quickfix, refactor, source, other
            let fix_a = cmd.find("'fixA'").unwrap();
            let fix_b = cmd.find("'fixB'").unwrap();
            let refac = cmd.find("'refac'").unwrap();
            let src_b = cmd.find("'srcB'").unwrap();
            let other = cmd.find("'other'").unwrap();
            assert!(fix_a < fix_b && fix_b < refac && refac < src_b && src_b < other);
            assert!(cmd.starts_with("evaluate-commands -- 'set-option global lsp_code_action_indicator [A]\nlsp-show-code-actions "));
        }
        _ => panic!("expected the list"),
    }
}

#[test]
fn regex_filter_selects_single_action() {
    let document = Document { lines: vec![str_chars("x\n"); 7], version: 5 };
    let results: Vec<(usize, Option<Vec<ActionOrCommand>>)> = vec![(
        0,
        Some(vec![action("Fix it", Some("quickfix")), action("Organize", Some("source"))]),
    )];
    let ranges = vec![(0usize, range(5, 0, 5, 1))];
    let mut p = params();
    p.filters = Some(CodeActionFilter::ByRegex("^Fix".to_string()));
    let r = editor_code_actions(
        &meta(),
        results,
        &p,
        5,
        ranges,
        Some(&document),
        &registry2(),
        "[A]",
    );
    match r {
        CodeActionsOutcome::Execute(cmd) => {
            assert_eq!(
                cmd,
                "evaluate-commands -- 'lsp-apply-workspace-edit ''{\"edit\":\"Fix it\"}'''"
            );
        }
        _ => panic!("expected a single execution"),
    }
}

#[test]
fn regex_filter_rejects_everything() {
    let document = Document { lines: vec![str_chars("x\n"); 7], version: 5 };
    let results: Vec<(usize, Option<Vec<ActionOrCommand>>)> =
        vec![(0, Some(vec![action("Fix it", Some("quickfix"))]))];
    let ranges = vec![(0usize, range(5, 0, 5, 1))];
    let mut p = params();
    p.filters = Some(CodeActionFilter::ByRegex("^Nope".to_string()));
    let r = editor_code_actions(
        &meta(),
        results,
        &p,
        5,
        ranges,
        Some(&document),
        &registry2(),
        "[A]",
    );
    match r {
        CodeActionsOutcome::ShowError(msg) => {
            assert_eq!(msg, "lsp-code-actions: no matching action available");
        }
        _ => panic!("expected an error"),
    }
}

#[test]
fn invalid_pattern_is_reported() {
    let document = Document { lines: vec![str_chars("x\n"); 7], version: 5 };
    let results: Vec<(usize, Option<Vec<ActionOrCommand>>)> =
        vec![(0, Some(vec![action("Fix it", Some("quickfix"))]))];
    let ranges = vec![(0usize, range(5, 0, 5, 1))];
    let mut p = params();
    p.filters = Some(CodeActionFilter::ByRegex("(".to_string()));
    let r = editor_code_actions(
        &meta(),
        results,
        &p,
        5,
        ranges,
        Some(&document),
        &registry2(),
        "[A]",
    );
    match r {
        CodeActionsOutcome::ShowError(msg) => {
            assert!(msg.starts_with("invalid pattern: "));
        }
        _ => panic!("expected an error"),
    }
}

#[test]
fn command_composition() {
    assert_eq!(
        apply_workspace_edit_editor_command("{\"c\":1}", true),
        "lsp-apply-workspace-edit-sync '{\"c\":1}'"
    );
    let c = Command {
        title: "Run".to_string(),
        command: "do.thing".to_string(),
        arguments_json: Some("[1,2]".to_string()),
    };
    assert_eq!(
        execute_command_editor_command("alpha", &c, false),
        "lsp-execute-command 'do.thing' '[1,2]' alpha"
    );
    let bare = Command {
        title: "Run".to_string(),
        command: "do.thing".to_string(),
        arguments_json: None,
    };
    assert_eq!(
        execute_command_editor_command("alpha", &bare, true),
        "lsp-execute-command-sync 'do.thing' '' alpha"
    );
}

#[test]
fn resolve_render_composes_the_selected_action() {
    let a = CodeAction {
        title: "Fix".to_string(),
        kind: None,
        edit_json: Some("{}".to_string()),
        command: None,
        action_json: "{}".to_string(),
    };
    assert_eq!(
        text_document_code_action_resolve("alpha", &a),
        "evaluate-commands -- 'lsp-apply-workspace-edit ''{}'''"
    );
}

#[test]
fn request_context_collects_overlapping_diagnostics() {
    let diag = |sl: u32, el: u32, server: usize| {
        (server, Diagnostic {
            range: range(sl, 0, el, 5),
            severity: Some(1),
            message: "m".to_string(),
            related_information: Vec::new(),
        })
    };
    // server 0 asks about lines 5..6, server 1 about lines 0..1
    let cache = vec![diag(5, 5, 0), diag(0, 0, 0), diag(5, 5, 1), diag(0, 1, 1)];
    let ranges = vec![(0usize, range(5, 0, 6, 0)), (1usize, range(0, 0, 1, 0))];
    let ctx = code_actions_for_ranges(&cache, &ranges);
    assert_eq!(ctx.len(), 2);
    assert_eq!(ctx[0].0, 0);
    assert_eq!(ctx[0].1, vec![0]);
    assert_eq!(ctx[1].0, 1);
    assert_eq!(ctx[1].1, vec![3]);
}

#[test]
fn synchronous_single_action_executes_with_sync_commands() {
    let document = Document { lines: vec![str_chars("x\n"); 7], version: 5 };
    let results: Vec<(usize, Option<Vec<ActionOrCommand>>)> =
        vec![(0, Some(vec![action("Fix", Some("quickfix"))]))];
    let ranges = vec![(0usize, range(5, 0, 5, 1))];
    let mut m = meta();
    m.fifo = Some("/tmp/reply".to_string());
    let r = editor_code_actions(
        &m,
        results,
        &params(),
        5,
        ranges,
        Some(&document),
        &registry2(),
        "[A]",
    );
    match r {
        CodeActionsOutcome::Execute(cmd) => {
            assert_eq!(
                cmd,
                "evaluate-commands -- 'lsp-apply-workspace-edit-sync ''{\"edit\":\"Fix\"}'''"
            );
        }
        _ => panic!("expected a single execution"),
    }
}
