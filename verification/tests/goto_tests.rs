use kakoune_lsp::goto::edit_at_range;
use kakoune_lsp::goto::first_nonempty_goto_index;
use kakoune_lsp::goto::goto;
use kakoune_lsp::goto::goto_response_locations;
use kakoune_lsp::goto::GotoResponse;
use kakoune_lsp::goto::LocationLink;
use kakoune_lsp::str_chars;
use kakoune_lsp::types::Capabilities;
use kakoune_lsp::types::EditorPosition;
use kakoune_lsp::types::EditorRange;
use kakoune_lsp::types::FileContents;
use kakoune_lsp::types::Location;
use kakoune_lsp::types::LspPosition;
use kakoune_lsp::types::LspRange;
use kakoune_lsp::types::OffsetEncoding;
use kakoune_lsp::types::EditorMeta;
use kakoune_lsp::types::ServerRegistry;
use kakoune_lsp::types::ServerSettings;

fn registry() -> ServerRegistry {
    ServerRegistry {
        servers: vec![ServerSettings {
            name: "alpha".to_string(),
            root_path: "/proj".to_string(),
            offset_encoding: OffsetEncoding::Utf8,
            capabilities: Capabilities {
                code_actions: true,
                code_actions_resolve: true,
                code_lens: true,
                formatting: true,
                range_formatting: true,
                rename: true,
                goto: true,
                references: true,
                call_hierarchy: true,
                execute_command: true,
            },
        }],
    }
}

fn meta() -> EditorMeta {
    EditorMeta {
        buffile: "/proj/main.rs".to_string(),
        client: String::new(),
        servers: vec![0],
        hook: false,
        fifo: None,
        write_response_to_fifo: false,
        version: None,
    }
}

fn range(sl: u32, sc: u32, el: u32, ec: u32) -> LspRange {
    LspRange {
        start: LspPosition { line: sl, character: sc },
        end: LspPosition { line: el, character: ec },
    }
}

fn location(filename: &str, r: LspRange) -> Location {
    Location { filename: filename.to_string(), range: r }
}

#[test]
fn links_normalize_to_locations() {
    let links = GotoResponse::Link(vec![LocationLink {
        filename: "/proj/a.rs".to_string(),
        target_selection_range: range(3, 0, 3, 4),
    }]);
    let locs = goto_response_locations(links);
    assert_eq!(locs.len(), 1);
    assert_eq!(locs[0].filename, "/proj/a.rs");
    assert_eq!(locs[0].range, range(3, 0, 3, 4));
}

#[test]
fn single_location_jumps() {
    let files = FileContents {
        files: vec![("/proj/b.rs".to_string(), vec![str_chars("one\n"), str_chars("hello world\n")])],
    };
    let resp = GotoResponse::Array(vec![location("/proj/b.rs", range(1, 2, 1, 4))]);
    let cmd = goto(&meta(), Some(resp), &registry(), &files).unwrap();
    assert_eq!(
        cmd,
        "evaluate-commands -try-client %opt{jumpclient} -- \
         'edit -existing ''/proj/b.rs''\nselect 2.3,2.5\nexecute-keys <c-s>vv'"
    );
}

#[test]
fn no_response_and_no_targets_are_no_ops() {
    let files = FileContents { files: Vec::new() };
    assert!(goto(&meta(), None, &registry(), &files).is_none());
    let empty = GotoResponse::Array(Vec::new());
    assert!(goto(&meta(), Some(empty), &registry(), &files).is_none());
}

#[test]
fn many_locations_group_by_first_encountered_file() {
    let files = FileContents {
        files: vec![
            ("/proj/a.rs".to_string(), vec![str_chars("alpha line\n"), str_chars("second a\n")]),
            ("/proj/b.rs".to_string(), vec![str_chars("beta line\n")]),
        ],
    };
    // a.rs first, then b.rs, then a.rs again: groups keep first-encountered
    // file order, and a.rs entries keep their input order
    let resp = GotoResponse::Array(vec![
        location("/proj/a.rs", range(0, 0, 0, 2)),
        location("/proj/b.rs", range(0, 5, 0, 6)),
        location("/proj/a.rs", range(1, 1, 1, 2)),
    ]);
    let cmd = goto(&meta(), Some(resp), &registry(), &files).unwrap();
    assert_eq!(
        cmd,
        "lsp-show-goto-choices '/proj' 'a.rs:1:1:alpha line\na.rs:2:2:second a\nb.rs:1:6:beta line\n'"
    );
}

#[test]
fn out_of_range_targets_are_dropped() {
    let files = FileContents {
        files: vec![("/proj/a.rs".to_string(), vec![str_chars("only line\n")])],
    };
    let resp = GotoResponse::Array(vec![
        location("/proj/a.rs", range(0, 0, 0, 1)),
        location("/proj/a.rs", range(9, 0, 9, 1)),
    ]);
    let cmd = goto(&meta(), Some(resp), &registry(), &files).unwrap();
    assert_eq!(cmd, "lsp-show-goto-choices '/proj' 'a.rs:1:1:only line\n'");
}

#[test]
fn edit_at_range_selects_and_centers() {
    let r = EditorRange {
        start: EditorPosition { line: 2, column: 3 },
        end: EditorPosition { line: 2, column: 5 },
    };
    assert_eq!(
        edit_at_range("/proj/b.rs", r),
        "edit -existing '/proj/b.rs'\nselect 2.3,2.5\nexecute-keys <c-s>vv"
    );
}

#[test]
fn goto_fusion_takes_the_first_nonempty_answer() {
    let results: Vec<(usize, Option<GotoResponse>)> = vec![
        (0, None),
        (1, Some(GotoResponse::Array(Vec::new()))),
        (2, Some(GotoResponse::Scalar(location("/proj/a.rs", range(0, 0, 0, 1))))),
        (3, Some(GotoResponse::Array(vec![location("/proj/b.rs", range(0, 0, 0, 1))]))),
    ];
    assert_eq!(first_nonempty_goto_index(&results), Some(2));
    let silent: Vec<(usize, Option<GotoResponse>)> =
        vec![(0, None), (1, Some(GotoResponse::Link(Vec::new())))];
    assert_eq!(first_nonempty_goto_index(&silent), None);
}
