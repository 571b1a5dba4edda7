//! The clangd switch-source/header request.

use vstd::prelude::*;

use crate::escape::editor_quote_seq;
use crate::strutil::push_str;

verus! {

/// Marker for the `textDocument/switchSourceHeader` request.
pub struct SwitchSourceHeaderRequest {}

/// The switch-source/header continuation: jump to the counterpart file
/// when the server names one, otherwise do nothing.
pub fn switch_source_header(response: Option<String>) -> (r: Option<String>)
    ensures
        r is Some <==> response is Some,
        r is Some ==> r->0@
            == "evaluate-commands -try-client %opt{jumpclient} -verbatim -- edit -existing "@
            + editor_quote_seq(response->0@),
{
    let path = match response {
        Option::Some(path) => path,
        Option::None => {
            return Option::None;
        },
    };
    let mut out = crate::strutil::str_chars(
        "evaluate-commands -try-client %opt{jumpclient} -verbatim -- edit -existing ",
    );
    let quoted = crate::escape::editor_quote(path.as_str());
    push_str(&mut out, quoted.as_str());
    proof {
        assert(out@
            =~= "evaluate-commands -try-client %opt{jumpclient} -verbatim -- edit -existing "@
            + editor_quote_seq(path@));
    }
    Option::Some(crate::strutil::chars_to_string(&out))
}

} // verus!
