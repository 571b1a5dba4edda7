//! Whole-document formatting: server selection and first-answer fusion.

use vstd::prelude::*;

use crate::dispatch::Feature;
use crate::types::EditorMeta;
use crate::types::ServerId;
use crate::types::ServerRegistry;

verus! {

/// The formatting options the editor sends along.
#[derive(Clone, Copy, PartialEq, Eq, Structural, Debug)]
pub struct FormattingOptions {
    pub tab_size: u32,
    pub insert_spaces: bool,
}

/// The formatting entry point: the consulted servers that pass the capability filter,
/// in registry order. The reply takes the first server that answered at
/// all (`crate::dispatch::first_some_index`) and forwards its edits to
/// the range-formatting continuation.
pub fn text_document_formatting(meta: &EditorMeta, registry: &ServerRegistry) -> (r: Vec<ServerId>)
    ensures
        forall|k: int|
            0 <= k < r@.len() ==> crate::dispatch::spec_eligible(
                registry,
                meta,
                Feature::Formatting,
                #[trigger] r@[k],
            ),
        forall|k1: int, k2: int| 0 <= k1 < k2 < r@.len() ==> r@[k1] < r@[k2],
        forall|id: ServerId|
            crate::dispatch::spec_eligible(registry, meta, Feature::Formatting, id)
                ==> r@.contains(id),
{
    crate::dispatch::eligible_servers(registry, meta, Feature::Formatting)
}

} // verus!
