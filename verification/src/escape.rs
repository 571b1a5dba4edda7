//! Markup escaping and the editor's quoting discipline.
//!
//! The editor parses commands with a shell-like argument grammar; these
//! functions produce strings that survive it: single-quote wrapping with
//! quote doubling, double-quote doubling, tuple-element escaping, markup
//! brace escaping, and the `%§…§` verbatim envelope with `§` doubling.

use vstd::prelude::*;

use crate::strutil::chars_to_string;
use crate::strutil::str_chars;

verus! {

/// `s` with each character expanded by `f`, in order.
pub open spec fn escape_map(s: Seq<char>, f: spec_fn(char) -> Seq<char>) -> Seq<char>
    decreases s.len(),
{
    if s.len() == 0 {
        Seq::empty()
    } else {
        escape_map(s.drop_last(), f) + f(s.last())
    }
}

/// Extending the input by one character appends that character's expansion.
pub proof fn lemma_escape_map_step(s: Seq<char>, f: spec_fn(char) -> Seq<char>, i: int)
    requires
        0 <= i < s.len(),
    ensures
        escape_map(s.take(i + 1), f) == escape_map(s.take(i), f) + f(s[i]),
{
    assert(s.take(i + 1).drop_last() =~= s.take(i));
    assert(s.take(i + 1).last() == s[i]);
}

/// The whole input, taken, is the input itself.
pub proof fn lemma_escape_map_take_all(s: Seq<char>, f: spec_fn(char) -> Seq<char>)
    ensures
        escape_map(s.take(s.len() as int), f) == escape_map(s, f),
{
    assert(s.take(s.len() as int) =~= s);
}

/// Doubles `special`, leaves every other character alone.
pub open spec fn double_char(special: char) -> spec_fn(char) -> Seq<char> {
    |c: char| if c == special { seq![special, special] } else { seq![c] }
}

/// Prefixes `special` with a backslash, leaves every other character alone.
pub open spec fn backslash_char(special: char) -> spec_fn(char) -> Seq<char> {
    |c: char| if c == special { seq!['\\', special] } else { seq![c] }
}

/// `s` with every single quote doubled: the escaping used inside the
/// editor's single-quoted string literals.
pub open spec fn editor_escape_seq(s: Seq<char>) -> Seq<char> {
    escape_map(s, double_char('\''))
}

/// `s` wrapped in single quotes, with inner quotes doubled: survives the
/// editor's shell-like argument parser as one argument.
pub open spec fn editor_quote_seq(s: Seq<char>) -> Seq<char> {
    seq!['\''] + editor_escape_seq(s) + seq!['\'']
}

/// `s` with every double quote doubled: the escaping used inside the
/// editor's double-quoted string literals.
pub open spec fn editor_escape_double_quotes_seq(s: Seq<char>) -> Seq<char> {
    escape_map(s, double_char('"'))
}

/// `s` with every `|` preceded by a backslash: `|` separates the fields of
/// the editor's range-spec and flag tuples.
pub open spec fn escape_tuple_element_seq(s: Seq<char>) -> Seq<char> {
    escape_map(s, backslash_char('|'))
}

/// `s` with every `{` preceded by a backslash, so user text is not read as
/// a face directive by the editor's markup parser.
pub open spec fn escape_kakoune_markup_seq(s: Seq<char>) -> Seq<char> {
    escape_map(s, backslash_char('{'))
}

/// `s` with every `§` doubled: the body escaping of the `%§…§` envelope.
pub open spec fn double_section_signs_seq(s: Seq<char>) -> Seq<char> {
    escape_map(s, double_char('§'))
}

/// Runs one doubling pass over `cs`.
pub fn escape_doubling(cs: &Vec<char>, special: char) -> (r: Vec<char>)
    ensures
        r@ == escape_map(cs@, double_char(special)),
{
    let mut out: Vec<char> = Vec::new();
    let mut i: usize = 0;
    while i < cs.len()
        invariant
            i <= cs.len(),
            out@ == escape_map(cs@.take(i as int), double_char(special)),
        decreases cs.len() - i,
    {
        let c = cs[i];
        if c == special {
            out.push(special);
            out.push(special);
        } else {
            out.push(c);
        }
        proof {
            lemma_escape_map_step(cs@, double_char(special), i as int);
        }
        i = i + 1;
    }
    proof {
        lemma_escape_map_take_all(cs@, double_char(special));
    }
    out
}

/// Runs one backslash-prefixing pass over `cs`.
pub fn escape_backslashing(cs: &Vec<char>, special: char) -> (r: Vec<char>)
    ensures
        r@ == escape_map(cs@, backslash_char(special)),
{
    let mut out: Vec<char> = Vec::new();
    let mut i: usize = 0;
    while i < cs.len()
        invariant
            i <= cs.len(),
            out@ == escape_map(cs@.take(i as int), backslash_char(special)),
        decreases cs.len() - i,
    {
        let c = cs[i];
        if c == special {
            out.push('\\');
            out.push(special);
        } else {
            out.push(c);
        }
        proof {
            lemma_escape_map_step(cs@, backslash_char(special), i as int);
        }
        i = i + 1;
    }
    proof {
        lemma_escape_map_take_all(cs@, backslash_char(special));
    }
    out
}

/// Escapes `s` for use inside a single-quoted editor literal.
pub fn editor_escape(s: &str) -> (r: String)
    ensures
        r@ == editor_escape_seq(s@),
{
    let cs = str_chars(s);
    let out = escape_doubling(&cs, '\'');
    chars_to_string(&out)
}

/// Quotes `s` as one editor argument: single quotes around it, inner single
/// quotes doubled.
pub fn editor_quote(s: &str) -> (r: String)
    ensures
        r@ == editor_quote_seq(s@),
{
    let cs = str_chars(s);
    let mut out: Vec<char> = Vec::new();
    out.push('\'');
    let mut body = escape_doubling(&cs, '\'');
    out.append(&mut body);
    out.push('\'');
    proof {
        assert(out@ =~= editor_quote_seq(s@));
    }
    chars_to_string(&out)
}

/// Escapes `s` for use inside a double-quoted editor literal.
pub fn editor_escape_double_quotes(s: &str) -> (r: String)
    ensures
        r@ == editor_escape_double_quotes_seq(s@),
{
    let cs = str_chars(s);
    let out = escape_doubling(&cs, '"');
    chars_to_string(&out)
}

/// Escapes the delimiters of the editor's tuple syntax in `s`.
pub fn escape_tuple_element(s: &str) -> (r: String)
    ensures
        r@ == escape_tuple_element_seq(s@),
{
    let cs = str_chars(s);
    let out = escape_backslashing(&cs, '|');
    chars_to_string(&out)
}

/// Escapes the editor's markup braces in `s`.
pub fn escape_kakoune_markup(s: &str) -> (r: String)
    ensures
        r@ == escape_kakoune_markup_seq(s@),
{
    let cs = str_chars(s);
    let out = escape_backslashing(&cs, '{');
    chars_to_string(&out)
}

/// The buffer-scoped verbatim envelope: `evaluate-commands -buffer <b> %§
/// BODY §` with the buffer name quoted and every `§` of the body doubled.
pub open spec fn buffer_envelope_seq(buffile: Seq<char>, body: Seq<char>) -> Seq<char> {
    "evaluate-commands -buffer "@ + editor_quote_seq(buffile) + " %§"@ + double_section_signs_seq(
        body,
    ) + "§"@
}

/// Wraps `body` in the buffer-scoped verbatim envelope for `buffile`.
pub fn buffer_envelope(buffile: &str, body: &Vec<char>) -> (r: Vec<char>)
    ensures
        r@ == buffer_envelope_seq(buffile@, body@),
{
    let mut out = str_chars("evaluate-commands -buffer ");
    let bcs = str_chars(buffile);
    out.push('\'');
    let mut b = escape_doubling(&bcs, '\'');
    out.append(&mut b);
    out.push('\'');
    let mut mid = str_chars(" %§");
    out.append(&mut mid);
    let mut doubled = escape_doubling(body, '§');
    out.append(&mut doubled);
    let mut end = str_chars("§");
    out.append(&mut end);
    proof {
        assert(out@ =~= buffer_envelope_seq(buffile@, body@));
    }
    out
}

} // verus!
