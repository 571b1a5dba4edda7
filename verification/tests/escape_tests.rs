use kakoune_lsp::chars_to_string;
use kakoune_lsp::escape::buffer_envelope;
use kakoune_lsp::escape::editor_escape;
use kakoune_lsp::escape::editor_escape_double_quotes;
use kakoune_lsp::escape::editor_quote;
use kakoune_lsp::escape::escape_kakoune_markup;
use kakoune_lsp::escape::escape_tuple_element;
use kakoune_lsp::str_chars;

#[test]
fn quote_plain_text() {
    assert_eq!(editor_quote("hello"), "'hello'");
}

#[test]
fn quote_doubles_single_quotes() {
    assert_eq!(editor_quote("it's a 'test'"), "'it''s a ''test'''");
}

#[test]
fn quote_empty() {
    assert_eq!(editor_quote(""), "''");
}

#[test]
fn escape_doubles_quotes_only() {
    assert_eq!(editor_escape("a'b'c"), "a''b''c");
    assert_eq!(editor_escape("plain"), "plain");
}

#[test]
fn escape_double_quotes() {
    assert_eq!(editor_escape_double_quotes("say \"hi\""), "say \"\"hi\"\"");
}

#[test]
fn tuple_element_escapes_pipes() {
    assert_eq!(escape_tuple_element("a|b|c"), "a\\|b\\|c");
    assert_eq!(escape_tuple_element("nopipe"), "nopipe");
}

#[test]
fn markup_escapes_braces() {
    assert_eq!(escape_kakoune_markup("{red}text"), "\\{red}text");
}

#[test]
fn envelope_doubles_section_signs() {
    let body = str_chars("echo a§b");
    let env = chars_to_string(&buffer_envelope("file.rs", &body));
    assert_eq!(env, "evaluate-commands -buffer 'file.rs' %§echo a§§b§");
}

#[test]
fn envelope_quotes_buffer_name() {
    let body = str_chars("nop");
    let env = chars_to_string(&buffer_envelope("it's.rs", &body));
    assert_eq!(env, "evaluate-commands -buffer 'it''s.rs' %§nop§");
}
