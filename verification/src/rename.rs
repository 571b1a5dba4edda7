//! Rename: per-server request building and first-answer fusion.

use vstd::prelude::*;

use crate::position::lines_fit;
use crate::types::Document;
use crate::types::EditorMeta;
use crate::types::EditorPosition;
use crate::types::LspPosition;
use crate::types::ServerId;
use crate::types::ServerRegistry;

verus! {

/// The rename entry point: every registered server is asked, each with
/// the position translated under its own encoding.
pub fn text_document_rename(
    meta: &EditorMeta,
    position: EditorPosition,
    new_name: &String,
    registry: &ServerRegistry,
    document: Option<&Document>,
) -> (r: Option<Vec<(ServerId, LspPosition)>>)
    requires
        position.line >= 1,
        position.column >= 1,
        match document {
            Option::Some(doc) => lines_fit(doc.lines@),
            Option::None => true,
        },
    ensures
        r is Some <==> document is Some,
        r is Some ==> {
            let plan = r->0@;
            &&& plan.len() == registry.servers@.len()
            &&& forall|k: int|
                0 <= k < plan.len() ==> (#[trigger] plan[k]).0 == k && plan[k].1
                    == crate::position::editor_position_to_lsp_spec(
                    position,
                    document->0.lines@,
                    registry.servers@[k].offset_encoding,
                )
        },
{
    let doc = match document {
        Option::Some(doc) => doc,
        Option::None => {
            return Option::None;
        },
    };
    let mut plan: Vec<(ServerId, LspPosition)> = Vec::new();
    let mut id: usize = 0;
    while id < registry.servers.len()
        invariant
            id <= registry.servers@.len(),
            position.line >= 1,
            position.column >= 1,
            lines_fit(doc.lines@),
            plan@.len() == id,
            forall|k: int|
                0 <= k < id ==> (#[trigger] plan@[k]).0 == k && plan@[k].1
                    == crate::position::editor_position_to_lsp_spec(
                    position,
                    doc.lines@,
                    registry.servers@[k].offset_encoding,
                ),
        decreases registry.servers@.len() - id,
    {
        let lsp_position = crate::position::editor_position_to_lsp(
            position,
            &doc.lines,
            registry.get(id).offset_encoding,
        );
        plan.push((id, lsp_position));
        id = id + 1;
    }
    Option::Some(plan)
}

/// The rename continuation: the first server that returned a workspace
/// edit wins; its edit (pre-serialized) becomes the apply command.
pub fn editor_rename(edit_json: &str) -> (r: String)
    ensures
        r@ == crate::code_action::spec_apply_workspace_edit_command(edit_json@, false),
{
    crate::code_action::apply_workspace_edit_editor_command(edit_json, false)
}

} // verus!
