//! Classification of a detail route's trailing path segment: the routing
//! layer serves "view resource #42" and "create a resource" from the same
//! handler, told apart only by whether the final segment is a literal
//! keyword or an id.

use vstd::prelude::*;

use crate::strutil::str_eq;

verus! {

/// The operation a detail route's trailing segment requests.
#[derive(Debug, Clone, Copy, PartialEq, Eq, Structural)]
pub enum DetailOperations {
    Create,
    Read,
    Update,
    Delete,
}

/// The fixed vocabulary of trailing segments: `anlegen` creates, `detail`
/// reads, `update` updates, `entfernen` deletes; anything else — typically a
/// numeric id — is none of these.
pub open spec fn detail_operation_of(s: Seq<char>) -> Option<DetailOperations> {
    if s == "anlegen"@ {
        Some(DetailOperations::Create)
    } else if s == "detail"@ {
        Some(DetailOperations::Read)
    } else if s == "update"@ {
        Some(DetailOperations::Update)
    } else if s == "entfernen"@ {
        Some(DetailOperations::Delete)
    } else {
        None
    }
}

impl DetailOperations {
    /// Reads a trailing segment; `None` for anything outside the vocabulary,
    /// and `Some(Create)` for exactly the create keyword.
    pub fn from_string(str: String) -> (r: Option<Self>)
        ensures
            r == detail_operation_of(str@),
    {
        if str_eq(str.as_str(), "anlegen") {
            Some(DetailOperations::Create)
        } else if str_eq(str.as_str(), "detail") {
            Some(DetailOperations::Read)
        } else if str_eq(str.as_str(), "update") {
            Some(DetailOperations::Update)
        } else if str_eq(str.as_str(), "entfernen") {
            Some(DetailOperations::Delete)
        } else {
            None
        }
    }

    /// The segment spelling of this operation.
    pub fn _to_string(&self) -> (r: String)
        ensures
            r@ == (match self {
                DetailOperations::Create => "anlegen"@,
                DetailOperations::Read => "detail"@,
                DetailOperations::Update => "update"@,
                DetailOperations::Delete => "entfernen"@,
            }),
    {
        match self {
            DetailOperations::Create => "anlegen".to_owned(),
            DetailOperations::Read => "detail".to_owned(),
            DetailOperations::Update => "update".to_owned(),
            DetailOperations::Delete => "entfernen".to_owned(),
        }
    }
}

} // verus!
