//! Property storage: partial documents merged into the one stored under a
//! fingerprint. Reading and committing the file is left to the caller.
use vstd::prelude::*;
use crate::document::{doc_wf, merge, merged_into, Document};

verus! {

/// Folder, below the library's data folder, that holds one document per fingerprint.
pub const PROPERTIES_STORAGE_FOLDER: &'static str = "user/properties";

/// The document to commit when `update` is stored over `current`: the update
/// itself when nothing was stored, else the update merged into what was.
pub fn apply_update(current: Option<Document>, update: Document) -> (r: Document)
    requires
        current matches Some(c) ==> doc_wf(c),
        doc_wf(update),
    ensures
        match current {
            None => r == update,
            Some(c) => merged_into(c, update, r),
        },
{
    match current {
        None => update,
        Some(c) => merge(c, update),
    }
}

} // verus!
