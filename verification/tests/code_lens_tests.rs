use kakoune_lsp::code_lens::editor_code_lens;
use kakoune_lsp::code_lens::resolve_and_perform_code_lens;
use kakoune_lsp::code_lens::CodeLensAction;
use kakoune_lsp::code_lens::CodeLensOptions;
use kakoune_lsp::str_chars;
use kakoune_lsp::types::Capabilities;
use kakoune_lsp::types::CodeLens;
use kakoune_lsp::types::Command;
use kakoune_lsp::types::Diagnostic;
use kakoune_lsp::types::Document;
use kakoune_lsp::types::EditorMeta;
use kakoune_lsp::types::LspPosition;
use kakoune_lsp::types::LspRange;
use kakoune_lsp::types::OffsetEncoding;
use kakoune_lsp::types::ServerRegistry;
use kakoune_lsp::types::ServerSettings;

fn caps() -> Capabilities {
    Capabilities {
        code_actions: true,
        code_actions_resolve: false,
        code_lens: true,
        formatting: true,
        range_formatting: true,
        rename: true,
        goto: true,
        references: true,
        call_hierarchy: true,
        execute_command: true,
    }
}

fn registry() -> ServerRegistry {
    ServerRegistry {
        servers: vec![ServerSettings {
            name: "alpha".to_string(),
            root_path: "/proj".to_string(),
            offset_encoding: OffsetEncoding::Utf8,
            capabilities: caps(),
        }],
    }
}

fn meta() -> EditorMeta {
    EditorMeta {
        buffile: "/proj/main.rs".to_string(),
        client: String::new(),
        servers: vec![0],
        hook: false,
        fifo: None,
        write_response_to_fifo: false,
        version: None,
    }
}

fn range(sl: u32, sc: u32, el: u32, ec: u32) -> LspRange {
    LspRange {
        start: LspPosition { line: sl, character: sc },
        end: LspPosition { line: el, character: ec },
    }
}

fn lens(sl: u32, sc: u32, el: u32, ec: u32, title: Option<&str>) -> CodeLens {
    CodeLens {
        range: range(sl, sc, el, ec),
        command: title.map(|t| Command {
            title: t.to_string(),
            command: "cmd.run".to_string(),
            arguments_json: None,
        }),
    }
}

#[test]
fn cache_is_sorted_by_start_position() {
    let document = Document { lines: vec![str_chars("fn main() {}\n"); 9], version: 4 };
    let results = vec![
        (0usize, Some(vec![lens(7, 2, 7, 5, Some("late")), lens(1, 0, 1, 3, Some("early"))])),
        (0usize, Some(vec![lens(1, 0, 1, 1, Some("tie"))])),
    ];
    let diagnostics: Vec<(usize, Diagnostic)> = Vec::new();
    let (cache, cmd) =
        editor_code_lens(results, "/proj/main.rs", &diagnostics, Some(&document), "🔎");
    let cache = cache.unwrap();
    assert_eq!(cache.len(), 3);
    assert_eq!(cache[0].1.range.start, LspPosition { line: 1, character: 0 });
    assert_eq!(cache[0].1.command.as_ref().unwrap().title, "early");
    assert_eq!(cache[1].1.command.as_ref().unwrap().title, "tie");
    assert_eq!(cache[2].1.command.as_ref().unwrap().title, "late");
    let cmd = cmd.unwrap();
    assert!(cmd.contains("set-option buffer lsp_inlay_code_lenses 4 "));
    assert!(cmd.contains("'2|{InlayCodeLens}[🔎 early] '"));
    assert!(cmd.contains("'2|{InlayCodeLens}[🔎 tie] ' '8|{InlayCodeLens}[🔎 late] '"));
}

#[test]
fn closed_buffer_drops_the_cache() {
    let results = vec![(0usize, Some(vec![lens(0, 0, 0, 1, None)]))];
    let diagnostics: Vec<(usize, Diagnostic)> = Vec::new();
    let (cache, cmd) = editor_code_lens(results, "gone", &diagnostics, None, "[L]");
    assert!(cache.is_none());
    assert!(cmd.is_none());
}

#[test]
fn lens_marks_join_the_line_flag_stream() {
    let document = Document { lines: vec![str_chars("x\n"); 9], version: 2 };
    let results = vec![(0usize, Some(vec![lens(3, 0, 3, 1, Some("run"))]))];
    let diagnostics: Vec<(usize, Diagnostic)> = Vec::new();
    let (_, cmd) = editor_code_lens(results, "b", &diagnostics, Some(&document), "[L]");
    let cmd = cmd.unwrap();
    assert!(cmd.contains("lsp_diagnostic_lines 2 '4|%opt[lsp_code_lens_sign]'"));
}

#[test]
fn first_touching_unresolved_lens_is_resolved_first() {
    let document = Document { lines: vec![str_chars("x\n"); 9], version: 1 };
    let lenses = vec![
        (0usize, lens(2, 0, 2, 1, None)),
        (0usize, lens(2, 0, 4, 1, Some("already"))),
    ];
    let opts = CodeLensOptions { selection_desc: "3.1,3.1".to_string() };
    let r = resolve_and_perform_code_lens(&meta(), &opts, &lenses, Some(&document), &registry());
    match r {
        CodeLensAction::Resolve { server, index } => {
            assert_eq!(server, 0);
            assert_eq!(index, 0);
        }
        _ => panic!("expected a resolve"),
    }
}

#[test]
fn resolved_lens_ahead_does_not_hide_an_unresolved_one() {
    let document = Document { lines: vec![str_chars("x\n"); 9], version: 1 };
    let lenses = vec![
        (0usize, lens(2, 0, 4, 1, Some("already"))),
        (0usize, lens(2, 0, 2, 1, None)),
    ];
    let opts = CodeLensOptions { selection_desc: "3.1,3.1".to_string() };
    let r = resolve_and_perform_code_lens(&meta(), &opts, &lenses, Some(&document), &registry());
    match r {
        CodeLensAction::Resolve { server, index } => {
            assert_eq!(server, 0);
            assert_eq!(index, 1);
        }
        _ => panic!("expected a resolve of the unresolved lens"),
    }
}

#[test]
fn touching_lenses_perform_innermost_first() {
    let document = Document { lines: vec![str_chars("x\n"); 9], version: 1 };
    let lenses = vec![
        (0usize, lens(0, 0, 8, 1, Some("outer"))),
        (0usize, lens(2, 0, 3, 1, Some("inner"))),
    ];
    let opts = CodeLensOptions { selection_desc: "3.1,3.1".to_string() };
    let r = resolve_and_perform_code_lens(&meta(), &opts, &lenses, Some(&document), &registry());
    match r {
        CodeLensAction::Perform(cmd) => {
            assert_eq!(
                cmd,
                "lsp-perform-code-lens 'inner' 'lsp-execute-command ''cmd.run'' '''' alpha' \
                 'outer' 'lsp-execute-command ''cmd.run'' '''' alpha'"
            );
        }
        _ => panic!("expected a perform"),
    }
}

#[test]
fn no_touching_lens_is_an_error() {
    let document = Document { lines: vec![str_chars("x\n"); 9], version: 1 };
    let lenses = vec![(0usize, lens(7, 0, 7, 1, Some("far")))];
    let opts = CodeLensOptions { selection_desc: "1.1,1.1".to_string() };
    let r = resolve_and_perform_code_lens(&meta(), &opts, &lenses, Some(&document), &registry());
    match r {
        CodeLensAction::Error(msg) => assert_eq!(msg, "no code lens in selection"),
        _ => panic!("expected an error"),
    }
}
