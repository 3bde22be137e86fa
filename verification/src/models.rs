//! The parts of an Algolia search response that the workflow reads.
use vstd::prelude::*;

verus! {

/// Minimal subset of an Algolia single-index search response.
#[derive(Clone, Debug, PartialEq, Eq)]
pub struct SearchResponse {
    /// Results in the provider's ranking order.
    pub hits: Vec<SearchResult>,
}

/// A Flutter API documentation result returned by Algolia.
#[derive(Clone, Debug, PartialEq, Eq)]
pub struct SearchResult {
    /// Algolia's stable object identifier.
    pub object_id: String,
    /// Result name displayed in Alfred.
    pub name: String,
    /// Fully qualified Dart name used as Alfred's large type text.
    pub qualified_name: String,
    /// Relative Flutter API path returned by the index.
    pub href: String,
    /// Result kind (for example `class` or `method`).
    pub result_type: String,
    /// Enclosing declaration, when one exists.
    pub enclosed_by: Option<EnclosedBy>,
}

/// Nullable enclosure metadata emitted by the Flutter index.
#[derive(Clone, Debug, PartialEq, Eq)]
pub struct EnclosedBy {
    /// Enclosing declaration name. Missing names retain Dart's `from null` behavior.
    pub name: Option<String>,
}

} // verus!
