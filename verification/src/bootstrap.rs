//! Opening the store: the one-time path that reads the backing file's raw
//! text, migrates it to the current schema, and decodes the typed document.
//! The caller creates the file with an empty document first when none exists,
//! and writes the migrated text back before normal operation starts.

use vstd::prelude::*;
use crate::json::{Json, JsonV, parse_value, j_parse_value, pr_value};
use crate::document::{Document, DocumentV, DecodeError, sp_doc_of_json, encode_doc};
use crate::migration::{migrate, sp_migrate, MigrateError};

verus! {

/// Why opening the store had to stop.  Every one of these is fatal at
/// startup: going on could lose data.
#[derive(Copy, Clone, Debug, PartialEq, Eq, Structural)]
pub enum BootstrapError {
    /// The backing file is not a value of the document format.
    Syntax,
    /// The migration refused the raw document.
    Migrate(MigrateError),
    /// The migrated document does not have the current schema's shape.
    Structure,
}

/// The document a raw blob denotes after migration.
pub open spec fn sp_load(s: Seq<char>) -> Option<DocumentV> {
    let b = crate::json::ws_run(s, 0);
    match j_parse_value(s, b) {
        Some((v, n)) => if n + crate::json::ws_run(s, n) == s.len() {
            match sp_migrate(v) {
                Some(w) => sp_doc_of_json(w),
                None => None,
            }
        } else {
            None
        },
        None => None,
    }
}

/// Reads the raw text of the backing file, migrates it, and gives both the
/// typed document and the migrated text to write back.
pub fn load_document(text: &Vec<char>) -> (r: Result<(Document, Vec<char>), BootstrapError>)
    ensures
        match r {
            Ok((d, out)) => sp_load(text@) == Some(d@) && d.wf()
                && out@ == encode_doc(d@),
            Err(e) => sp_load(text@) is None,
        },
{
    let b = crate::json::skip_ws(text.as_slice(), 0);
    let (raw, n) = match parse_value(text.as_slice(), b) {
        Some(r) => r,
        None => { return Err(BootstrapError::Syntax); },
    };
    if crate::json::skip_ws(text.as_slice(), n) != text.len() {
        return Err(BootstrapError::Syntax);
    }
    let migrated = match migrate(raw) {
        Ok(w) => w,
        Err(e) => { return Err(BootstrapError::Migrate(e)); },
    };
    let d = match Document::from_json(&migrated) {
        Ok(d) => d,
        Err(_) => { return Err(BootstrapError::Structure); },
    };
    let out = d.encode();
    Ok((d, out))
}

} // verus!
