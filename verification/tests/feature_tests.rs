use kakoune_lsp::call_hierarchy::format_call_hierarchy_calls;
use kakoune_lsp::call_hierarchy::request_call_hierarchy;
use kakoune_lsp::call_hierarchy::CallHierarchyCall;
use kakoune_lsp::call_hierarchy::CallHierarchyItem;
use kakoune_lsp::clangd::switch_source_header;
use kakoune_lsp::dispatch::eligible_servers;
use kakoune_lsp::dispatch::first_nonempty_index;
use kakoune_lsp::dispatch::first_some_index;
use kakoune_lsp::dispatch::reply_is_stale;
use kakoune_lsp::dispatch::supersedes;
use kakoune_lsp::dispatch::Feature;
use kakoune_lsp::eclipse_jdt_ls::organize_imports;
use kakoune_lsp::eclipse_jdt_ls::organize_imports_response;
use kakoune_lsp::range_formatting::editor_range_formatting;
use kakoune_lsp::range_formatting::select_first_server_batches;
use kakoune_lsp::rename::editor_rename;
use kakoune_lsp::rename::text_document_rename;
use kakoune_lsp::str_chars;
use kakoune_lsp::strutil::short_file_path;
use kakoune_lsp::texlab::build_response;
use kakoune_lsp::texlab::forward_search_response;
use kakoune_lsp::texlab::BuildResult;
use kakoune_lsp::texlab::BuildStatus;
use kakoune_lsp::texlab::ForwardSearchResult;
use kakoune_lsp::texlab::ForwardSearchStatus;
use kakoune_lsp::types::Capabilities;
use kakoune_lsp::types::Document;
use kakoune_lsp::types::EditorMeta;
use kakoune_lsp::types::EditorPosition;
use kakoune_lsp::types::FileContents;
use kakoune_lsp::types::LspPosition;
use kakoune_lsp::types::LspRange;
use kakoune_lsp::types::OffsetEncoding;
use kakoune_lsp::types::ServerRegistry;
use kakoune_lsp::types::ServerSettings;

fn server(name: &str, code_lens: bool) -> ServerSettings {
    ServerSettings {
        name: name.to_string(),
        root_path: "/proj".to_string(),
        offset_encoding: OffsetEncoding::Utf8,
        capabilities: Capabilities {
            code_actions: true,
            code_actions_resolve: false,
            code_lens,
            formatting: true,
            range_formatting: true,
            rename: true,
            goto: true,
            references: true,
            call_hierarchy: true,
            execute_command: true,
        },
    }
}

fn meta(servers: Vec<usize>) -> EditorMeta {
    EditorMeta {
        buffile: "/proj/main.rs".to_string(),
        client: String::new(),
        servers,
        hook: false,
        fifo: None,
        write_response_to_fifo: false,
        version: None,
    }
}

#[test]
fn eligible_servers_follow_registry_order_and_capability() {
    let registry = ServerRegistry {
        servers: vec![server("a", true), server("b", false), server("c", true)],
    };
    // the request consults servers 2 and 0 (and 7, which does not exist);
    // only lens-capable ones pass
    let m = meta(vec![2, 0, 7]);
    let r = eligible_servers(&registry, &m, Feature::CodeLens);
    assert_eq!(r, vec![0, 2]);
    let r2 = eligible_servers(&registry, &m, Feature::Formatting);
    assert_eq!(r2, vec![0, 2]);
    let r3 = eligible_servers(&registry, &meta(vec![1]), Feature::CodeLens);
    assert!(r3.is_empty());
}

#[test]
fn first_some_and_first_nonempty() {
    let results: Vec<(usize, Option<u32>)> = vec![(0, None), (1, Some(7)), (2, Some(9))];
    assert_eq!(first_some_index(&results), Some(1));
    let none: Vec<(usize, Option<u32>)> = vec![(0, None)];
    assert_eq!(first_some_index(&none), None);
    let lists: Vec<(usize, Option<Vec<u32>>)> =
        vec![(0, Some(vec![])), (1, None), (2, Some(vec![5])), (3, Some(vec![6]))];
    assert_eq!(first_nonempty_index(&lists), Some(2));
}

#[test]
fn stale_replies_and_cancellation() {
    // a code-action dispatch captured version 7; the document moved to 8
    assert!(reply_is_stale(8, 7));
    assert!(!reply_is_stale(7, 7));
    assert!(supersedes("/proj/a.rs", Feature::CodeActions, "/proj/a.rs", Feature::CodeActions));
    assert!(!supersedes("/proj/a.rs", Feature::CodeActions, "/proj/a.rs", Feature::CodeLens));
    assert!(!supersedes("/proj/a.rs", Feature::CodeActions, "/proj/b.rs", Feature::CodeActions));
}

#[test]
fn texlab_responses_echo_their_status() {
    assert_eq!(
        forward_search_response(ForwardSearchResult { status: ForwardSearchStatus::Success }),
        "echo Forward Search Success (texlab)"
    );
    assert_eq!(
        forward_search_response(ForwardSearchResult { status: ForwardSearchStatus::Unconfigured }),
        "echo Forward Search Unconfigured (texlab)"
    );
    assert_eq!(
        build_response(BuildResult { status: BuildStatus::Cancelled }),
        "echo Build Cancelled (texlab)"
    );
    assert_eq!(ForwardSearchStatus::from_code(2), Some(ForwardSearchStatus::Failure));
    assert_eq!(ForwardSearchStatus::from_code(9), None);
    assert_eq!(BuildStatus::from_code(1), Some(BuildStatus::Error));
}

#[test]
fn switch_source_header_jumps_when_answered() {
    assert_eq!(
        switch_source_header(Some("/proj/foo.h".to_string())).unwrap(),
        "evaluate-commands -try-client %opt{jumpclient} -verbatim -- edit -existing '/proj/foo.h'"
    );
    assert!(switch_source_header(None).is_none());
}

#[test]
fn organize_imports_targets_the_named_server() {
    let registry = ServerRegistry { servers: vec![server("a", true), server("jdt", true)] };
    let (sid, cmd) = organize_imports(&meta(vec![0, 1]), Some(1), &registry);
    assert_eq!(sid, 1);
    assert_eq!(cmd, "java.edit.organizeImports");
    let (sid2, _) = organize_imports(&meta(vec![0, 1]), None, &registry);
    assert_eq!(sid2, 0);
    assert_eq!(
        organize_imports_response(Some("{\"e\":1}".to_string())).unwrap(),
        "lsp-apply-workspace-edit '{\"e\":1}'"
    );
    assert!(organize_imports_response(None).is_none());
}

#[test]
fn range_formatting_takes_the_first_answering_server() {
    let results: Vec<(usize, Option<Vec<u32>>)> = vec![
        (0, None),
        (1, Some(vec![10, 11])),
        (2, Some(vec![99])),
        (1, Some(vec![12])),
    ];
    let (sid, edits) = select_first_server_batches(results).unwrap();
    assert_eq!(sid, 1);
    assert_eq!(edits, vec![10, 11, 12]);
    let silent: Vec<(usize, Option<Vec<u32>>)> = vec![(0, None)];
    assert!(select_first_server_batches(silent).is_none());
}

#[test]
fn empty_formatting_reply_is_nop() {
    // the editor blocks on the fifo: an empty edit list still answers
    assert_eq!(editor_range_formatting(None), "nop");
    assert_eq!(
        editor_range_formatting(Some("lsp-apply-workspace-edit-sync '{}'".to_string())),
        "lsp-apply-workspace-edit-sync '{}'"
    );
}

#[test]
fn rename_translates_positions_per_server() {
    let mut utf16 = server("b", true);
    utf16.offset_encoding = OffsetEncoding::Utf16;
    let registry = ServerRegistry { servers: vec![server("a", true), utf16] };
    let document = Document { lines: vec![str_chars("é😀x\n")], version: 0 };
    let plan = text_document_rename(
        &meta(vec![0, 1]),
        EditorPosition { line: 1, column: 7 },
        &"newname".to_string(),
        &registry,
        Some(&document),
    )
    .unwrap();
    assert_eq!(plan.len(), 2);
    // before 'x': 6 utf-8 bytes, but 3 utf-16 units
    assert_eq!(plan[0], (0, LspPosition { line: 0, character: 6 }));
    assert_eq!(plan[1], (1, LspPosition { line: 0, character: 3 }));
    assert_eq!(editor_rename("{}"), "lsp-apply-workspace-edit '{}'");
}

#[test]
fn call_hierarchy_lists_callers_with_callsites() {
    let files = FileContents {
        files: vec![
            ("/proj/lib.rs".to_string(), vec![str_chars("fn callee() {}\n")]),
            ("/proj/main.rs".to_string(), vec![str_chars("fn caller() {\n"), str_chars("  callee();\n")]),
        ],
    };
    let item = CallHierarchyItem {
        name: "callee".to_string(),
        filename: "/proj/lib.rs".to_string(),
        range: LspRange {
            start: LspPosition { line: 0, character: 3 },
            end: LspPosition { line: 0, character: 9 },
        },
    };
    let calls = vec![CallHierarchyCall::Incoming {
        from: CallHierarchyItem {
            name: "caller".to_string(),
            filename: "/proj/main.rs".to_string(),
            range: LspRange {
                start: LspPosition { line: 0, character: 3 },
                end: LspPosition { line: 1, character: 0 },
            },
        },
        from_ranges: vec![LspRange {
            start: LspPosition { line: 1, character: 2 },
            end: LspPosition { line: 1, character: 8 },
        }],
    }];
    let out = format_call_hierarchy_calls(
        true,
        &item,
        &calls,
        &"/proj".to_string(),
        &files,
        OffsetEncoding::Utf8,
    );
    let contents = "lib.rs:1:4: callee - list of callers\n  main.rs:1:4: caller\n    main.rs:2:3:   callee();\n";
    assert_eq!(out, format!("lsp-show-incoming-calls '/proj' '{}'", contents));
}

#[test]
fn prepare_picks_the_first_answering_item() {
    let item = CallHierarchyItem {
        name: "f".to_string(),
        filename: "/proj/a.rs".to_string(),
        range: LspRange {
            start: LspPosition { line: 0, character: 0 },
            end: LspPosition { line: 0, character: 1 },
        },
    };
    let results = vec![(0usize, None), (1usize, Some(vec![item]))];
    assert_eq!(request_call_hierarchy(&results), Some((1, 1)));
    let empty = vec![(0usize, Some(Vec::<CallHierarchyItem>::new()))];
    assert_eq!(request_call_hierarchy(&empty), None);
}

#[test]
fn short_paths_strip_the_root() {
    assert_eq!(short_file_path("/proj/src/a.rs", "/proj"), "src/a.rs");
    assert_eq!(short_file_path("/other/a.rs", "/proj"), "/other/a.rs");
    assert_eq!(short_file_path("/proj", "/proj"), "");
}
