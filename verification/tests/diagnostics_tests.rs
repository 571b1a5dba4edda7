use kakoune_lsp::diagnostics::editor_diagnostics;
use kakoune_lsp::diagnostics::format_related_information;
use kakoune_lsp::diagnostics::gather_line_flags;
use kakoune_lsp::diagnostics::publish_diagnostics;
use kakoune_lsp::diagnostics::replace_diagnostics;
use kakoune_lsp::diagnostics::severity_word;
use kakoune_lsp::str_chars;
use kakoune_lsp::types::Capabilities;
use kakoune_lsp::types::CodeLens;
use kakoune_lsp::types::Diagnostic;
use kakoune_lsp::types::Document;
use kakoune_lsp::types::FileContents;
use kakoune_lsp::types::LspPosition;
use kakoune_lsp::types::LspRange;
use kakoune_lsp::types::OffsetEncoding;
use kakoune_lsp::types::RelatedInformation;
use kakoune_lsp::types::ServerRegistry;
use kakoune_lsp::types::ServerSettings;

fn caps() -> Capabilities {
    Capabilities {
        code_actions: true,
        code_actions_resolve: true,
        code_lens: true,
        formatting: true,
        range_formatting: true,
        rename: true,
        goto: true,
        references: true,
        call_hierarchy: true,
        execute_command: true,
    }
}

fn registry() -> ServerRegistry {
    ServerRegistry {
        servers: vec![ServerSettings {
            name: "rust-analyzer".to_string(),
            root_path: "/proj".to_string(),
            offset_encoding: OffsetEncoding::Utf8,
            capabilities: caps(),
        }],
    }
}

fn range(sl: u32, sc: u32, el: u32, ec: u32) -> LspRange {
    LspRange {
        start: LspPosition { line: sl, character: sc },
        end: LspPosition { line: el, character: ec },
    }
}

fn diag(sl: u32, sc: u32, el: u32, ec: u32, severity: Option<u32>, message: &str) -> Diagnostic {
    Diagnostic {
        range: range(sl, sc, el, ec),
        severity,
        message: message.to_string(),
        related_information: Vec::new(),
    }
}

#[test]
fn inline_diagnostics_render() {
    // one open document at version 3 with a single error diagnostic
    let document = Document { lines: vec![str_chars("let x = 1;\n")], version: 3 };
    let diagnostics = vec![(0usize, diag(0, 4, 0, 5, Some(1), "bad\nmore"))];
    let lenses: Vec<(usize, CodeLens)> = Vec::new();
    let render =
        publish_diagnostics("foo.rs", &diagnostics, &lenses, Some(&document), &registry()).unwrap();
    assert_eq!(render.error_count, 1);
    assert_eq!(render.hint_count, 0);
    assert_eq!(render.info_count, 0);
    assert_eq!(render.warning_count, 0);
    let mut expected_body = String::new();
    expected_body.push_str("set-option buffer lsp_diagnostic_error_count 1; ");
    expected_body.push_str("set-option buffer lsp_diagnostic_hint_count 0; ");
    expected_body.push_str("set-option buffer lsp_diagnostic_info_count 0; ");
    expected_body.push_str("set-option buffer lsp_diagnostic_warning_count 0; ");
    expected_body.push_str("set-option buffer lsp_inline_diagnostics 3 1.5,1.6|DiagnosticError; ");
    expected_body.push_str("evaluate-commands \"set-option buffer lsp_diagnostic_lines 3 ");
    expected_body.push_str("'1|{LineFlagError}%opt[lsp_diagnostic_line_error_sign]' ");
    expected_body.push_str("'0|%opt[lsp_diagnostic_line_error_sign]'\"; ");
    expected_body.push_str("set-option buffer lsp_inlay_diagnostics 3 ");
    expected_body.push_str("\"1.11+0|%opt[lsp_inlay_diagnostic_gap]");
    expected_body.push_str("{InlayDiagnosticError}%opt[lsp_inlay_diagnostic_sign] ");
    expected_body.push_str("{InlayDiagnosticError}bad\"");
    let expected = format!("evaluate-commands -buffer 'foo.rs' %§{}§", expected_body);
    assert_eq!(render.command, expected);
}

#[test]
fn publish_without_document_emits_nothing() {
    let diagnostics = vec![(0usize, diag(0, 0, 0, 1, Some(1), "x"))];
    let lenses: Vec<(usize, CodeLens)> = Vec::new();
    assert!(publish_diagnostics("foo.rs", &diagnostics, &lenses, None, &registry()).is_none());
}

#[test]
fn inline_diagnostics_paint_most_severe_last() {
    let document = Document { lines: vec![str_chars("abcdef\n")], version: 1 };
    let diagnostics = vec![
        (0usize, diag(0, 0, 0, 1, Some(1), "err")),
        (0usize, diag(0, 1, 0, 2, Some(4), "hint")),
        (0usize, diag(0, 2, 0, 3, None, "warn")),
    ];
    let lenses: Vec<(usize, CodeLens)> = Vec::new();
    let render =
        publish_diagnostics("f", &diagnostics, &lenses, Some(&document), &registry()).unwrap();
    // least severe first: the hint, then the severity-less warning, then
    // the error painted last (on top)
    assert!(render.command.contains(
        "1.2,1.3|DiagnosticHint 1.3,1.4|DiagnosticWarning 1.1,1.2|DiagnosticError"
    ));
    assert_eq!(render.warning_count, 1);
    assert_eq!(render.hint_count, 1);
    assert_eq!(render.error_count, 1);
}

#[test]
fn unknown_severity_paints_and_competes_as_warning() {
    let document = Document { lines: vec![str_chars("abcdef
")], version: 1 };
    // an unknown code and an info on one line: the unknown code acts as a
    // warning, so it paints after the info and wins the inlay text
    let diagnostics = vec![
        (0usize, diag(0, 0, 0, 1, Some(9), "odd")),
        (0usize, diag(0, 1, 0, 2, Some(3), "note")),
    ];
    let lenses: Vec<(usize, CodeLens)> = Vec::new();
    let render =
        publish_diagnostics("f", &diagnostics, &lenses, Some(&document), &registry()).unwrap();
    assert!(render.command.contains("1.2,1.3|DiagnosticInfo 1.1,1.2|DiagnosticWarning"));
    assert!(render.command.contains("{InlayDiagnosticWarning}odd"));
    assert_eq!(render.warning_count, 1);
    assert_eq!(render.info_count, 1);
}

#[test]
fn line_flag_merge_prefers_diagnostic() {
    // a diagnostic and a code lens on line 4: the diagnostic mark wins
    let diagnostics = vec![(0usize, diag(4, 0, 4, 3, Some(1), "broken"))];
    let lenses = vec![(0usize, CodeLens { range: range(4, 0, 4, 0), command: None })];
    let (flags, errors, hints, infos, warnings) = gather_line_flags(&diagnostics, &lenses);
    assert_eq!(flags, "'5|{LineFlagError}%opt[lsp_diagnostic_line_error_sign]'");
    assert_eq!((errors, hints, infos, warnings), (1, 0, 0, 0));
}

#[test]
fn line_flags_merge_by_ascending_line() {
    let diagnostics = vec![(0usize, diag(7, 0, 7, 1, Some(2), "w"))];
    let lenses = vec![(0usize, CodeLens { range: range(2, 0, 2, 0), command: None })];
    let (flags, ..) = gather_line_flags(&diagnostics, &lenses);
    assert_eq!(
        flags,
        "'3|%opt[lsp_code_lens_sign]' '8|{LineFlagWarning}%opt[lsp_diagnostic_line_warning_sign]'"
    );
}

#[test]
fn unknown_severity_is_treated_as_warning() {
    let diagnostics = vec![(0usize, diag(0, 0, 0, 1, Some(9), "odd"))];
    let lenses: Vec<(usize, CodeLens)> = Vec::new();
    let (flags, errors, hints, infos, warnings) = gather_line_flags(&diagnostics, &lenses);
    assert_eq!(flags, "'1|{LineFlagWarning}%opt[lsp_diagnostic_line_warning_sign]'");
    assert_eq!((errors, hints, infos, warnings), (0, 0, 0, 1));
    assert_eq!(severity_word(Some(9)), "warning");
}

#[test]
fn replace_keeps_other_servers() {
    let cache = vec![
        (0usize, diag(0, 0, 0, 1, Some(1), "a")),
        (1usize, diag(1, 0, 1, 1, Some(2), "b")),
        (0usize, diag(2, 0, 2, 1, Some(3), "c")),
    ];
    let fresh = vec![diag(5, 0, 5, 1, Some(4), "new")];
    let out = replace_diagnostics(cache, 0, fresh);
    assert_eq!(out.len(), 2);
    assert_eq!(out[0].0, 1);
    assert_eq!(out[0].1.message, "b");
    assert_eq!(out[1].0, 0);
    assert_eq!(out[1].1.message, "new");
}

#[test]
fn diagnostics_list_view() {
    let mut d = diag(0, 4, 0, 5, Some(1), "bad");
    d.related_information.push(RelatedInformation {
        filename: "/proj/other.rs".to_string(),
        position: LspPosition { line: 2, character: 1 },
        message: "origin".to_string(),
    });
    let all = vec![("/proj/main.rs".to_string(), vec![(0usize, d)])];
    let files = FileContents {
        files: vec![
            ("/proj/main.rs".to_string(), vec![str_chars("let x = 1;\n")]),
            ("/proj/other.rs".to_string(), vec![str_chars("a\n"), str_chars("b\n"), str_chars("c\n")]),
        ],
    };
    let out = editor_diagnostics(&all, &registry(), &files);
    assert_eq!(
        out,
        "lsp-show-diagnostics '/proj' 'main.rs:1:5: error: bad\nother.rs:3:2: (rust-analyzer) origin'"
    );
}

#[test]
fn missing_file_text_falls_back_to_raw_position() {
    // no stored text for the buffer: the list view still renders the
    // entry, with the 1-based fallback position
    let all = vec![("/proj/main.rs".to_string(), vec![(0usize, diag(2, 4, 2, 5, Some(1), "bad"))])];
    let files = FileContents { files: Vec::new() };
    let out = editor_diagnostics(&all, &registry(), &files);
    assert_eq!(out, "lsp-show-diagnostics '/proj' 'main.rs:3:5: error: bad'");
}

#[test]
fn related_information_is_none_when_absent() {
    let d = diag(0, 0, 0, 1, Some(1), "x");
    let files = FileContents { files: Vec::new() };
    let reg = registry();
    let root = "/proj".to_string();
    assert!(format_related_information(&d, 0, &reg, &files, &root).is_none());
}
