use kakoune_lsp::parse::parse_kakoune_position;
use kakoune_lsp::parse::parse_kakoune_range;
use kakoune_lsp::position::editor_position_to_lsp;
use kakoune_lsp::position::line_byte_length;
use kakoune_lsp::position::lsp_position_to_editor;
use kakoune_lsp::position::ranges_overlap;
use kakoune_lsp::position::ranges_touch_same_line;
use kakoune_lsp::str_chars;
use kakoune_lsp::types::EditorPosition;
use kakoune_lsp::types::LspPosition;
use kakoune_lsp::types::LspRange;
use kakoune_lsp::types::OffsetEncoding;

fn doc(lines: &[&str]) -> Vec<Vec<char>> {
    lines.iter().map(|l| str_chars(l)).collect()
}

#[test]
fn ascii_utf8_positions() {
    let lines = doc(&["let x = 1;\n"]);
    let p = lsp_position_to_editor(
        LspPosition { line: 0, character: 4 },
        &lines,
        OffsetEncoding::Utf8,
    );
    assert_eq!(p, EditorPosition { line: 1, column: 5 });
}

#[test]
fn multibyte_utf16_positions() {
    // 'é' is 2 UTF-8 bytes, 1 UTF-16 unit; '😀' is 4 bytes, 2 units.
    let lines = doc(&["é😀x\n"]);
    let p = lsp_position_to_editor(
        LspPosition { line: 0, character: 3 },
        &lines,
        OffsetEncoding::Utf16,
    );
    // é (2 bytes) + 😀 (4 bytes) = 6 bytes before 'x'
    assert_eq!(p, EditorPosition { line: 1, column: 7 });
    let q = editor_position_to_lsp(p, &lines, OffsetEncoding::Utf16);
    assert_eq!(q, LspPosition { line: 0, character: 3 });
}

#[test]
fn utf32_counts_code_points() {
    let lines = doc(&["é😀x\n"]);
    let p = lsp_position_to_editor(
        LspPosition { line: 0, character: 2 },
        &lines,
        OffsetEncoding::Utf32,
    );
    assert_eq!(p, EditorPosition { line: 1, column: 7 });
}

#[test]
fn out_of_range_line_gives_column_one() {
    let lines = doc(&["abc\n"]);
    let p = lsp_position_to_editor(
        LspPosition { line: 9, character: 5 },
        &lines,
        OffsetEncoding::Utf8,
    );
    assert_eq!(p, EditorPosition { line: 10, column: 1 });
}

#[test]
fn columns_clamp_to_line_length() {
    let lines = doc(&["ab\n"]);
    let p = lsp_position_to_editor(
        LspPosition { line: 0, character: 100 },
        &lines,
        OffsetEncoding::Utf8,
    );
    // clamps to the line's full byte length (3, including the newline)
    assert_eq!(p, EditorPosition { line: 1, column: 4 });
}

#[test]
fn round_trip_on_boundary() {
    // line: é (1 cp, 2 bytes, 1 utf-16 unit), 😀 (1 cp, 4 bytes, 2 units),
    // x, \n
    let lines = doc(&["é😀x\n", "second\n"]);
    let cases: [(OffsetEncoding, &[u32]); 3] = [
        (OffsetEncoding::Utf8, &[0, 2, 6, 7, 8]),
        (OffsetEncoding::Utf16, &[0, 1, 3, 4, 5]),
        (OffsetEncoding::Utf32, &[0, 1, 2, 3, 4]),
    ];
    for (enc, boundaries) in cases {
        for &character in boundaries {
            let p = LspPosition { line: 0, character };
            let q = editor_position_to_lsp(lsp_position_to_editor(p, &lines, enc), &lines, enc);
            assert_eq!(q, p);
        }
    }
    let p = LspPosition { line: 1, character: 3 };
    for enc in [OffsetEncoding::Utf8, OffsetEncoding::Utf16, OffsetEncoding::Utf32] {
        let q = editor_position_to_lsp(lsp_position_to_editor(p, &lines, enc), &lines, enc);
        assert_eq!(q, p);
    }
}

#[test]
fn byte_length_counts_utf8() {
    assert_eq!(line_byte_length(&str_chars("é😀x\n")), 8);
    assert_eq!(line_byte_length(&str_chars("")), 0);
}

#[test]
fn overlap_and_touch() {
    let a = LspRange {
        start: LspPosition { line: 1, character: 0 },
        end: LspPosition { line: 2, character: 5 },
    };
    let b = LspRange {
        start: LspPosition { line: 2, character: 6 },
        end: LspPosition { line: 3, character: 0 },
    };
    assert!(!ranges_overlap(a, b));
    assert!(ranges_touch_same_line(a, b));
    let c = LspRange {
        start: LspPosition { line: 2, character: 2 },
        end: LspPosition { line: 2, character: 9 },
    };
    assert!(ranges_overlap(a, c));
}

#[test]
fn parse_position_descriptor() {
    assert_eq!(
        parse_kakoune_position("12.7"),
        Some(EditorPosition { line: 12, column: 7 })
    );
    assert_eq!(parse_kakoune_position("12"), None);
    assert_eq!(parse_kakoune_position("a.b"), None);
    assert_eq!(parse_kakoune_position("12."), None);
    assert_eq!(parse_kakoune_position("99999999999.1"), None);
}

#[test]
fn parse_range_descriptor_orders_endpoints() {
    let r = parse_kakoune_range("5.7,5.3").unwrap();
    assert_eq!(r.start, EditorPosition { line: 5, column: 3 });
    assert_eq!(r.end, EditorPosition { line: 5, column: 7 });
    let r2 = parse_kakoune_range("1.1,2.9").unwrap();
    assert_eq!(r2.start, EditorPosition { line: 1, column: 1 });
    assert_eq!(r2.end, EditorPosition { line: 2, column: 9 });
    assert_eq!(parse_kakoune_range("1.1"), None);
}
