//! The Eclipse JDT organize-imports command.

use vstd::prelude::*;

use crate::types::EditorMeta;
use crate::types::ServerId;
use crate::types::ServerRegistry;

verus! {

/// The organize-imports entry point: the chosen server (the one the
/// request named, else the main server) and the workspace command to
/// execute with the buffer's file as its argument.
pub fn organize_imports(
    meta: &EditorMeta,
    language_server: Option<ServerId>,
    registry: &ServerRegistry,
) -> (r: (ServerId, String))
    requires
        registry.servers@.len() > 0,
    ensures
        r.0 == crate::texlab::spec_texlab_server(language_server, registry.servers@.len() as int),
        r.1@ == "java.edit.organizeImports"@,
{
    let server: ServerId = match language_server {
        Option::Some(id) => if id < registry.servers.len() {
            id
        } else {
            0
        },
        Option::None => 0,
    };
    (server, "java.edit.organizeImports".to_owned())
}

/// The organize-imports continuation: apply the returned workspace edit,
/// or do nothing when the server returned none.
pub fn organize_imports_response(result: Option<String>) -> (r: Option<String>)
    ensures
        r is Some <==> result is Some,
        r is Some ==> r->0@ == crate::code_action::spec_apply_workspace_edit_command(
            result->0@,
            false,
        ),
{
    match result {
        Option::Some(edit_json) => Option::Some(
            crate::code_action::apply_workspace_edit_editor_command(edit_json.as_str(), false),
        ),
        Option::None => Option::None,
    }
}

} // verus!
