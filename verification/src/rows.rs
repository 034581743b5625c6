//! Raw rows of the three history tables, exactly as fetched from the
//! store. Every column is optional: a field is `None` where the stored
//! value was NULL or did not have the expected SQL type. Which rows with
//! missing fields are kept, and which are silently dropped, is decided by
//! the verified query pipelines, not by the fetching layer.

use vstd::prelude::*;

verus! {

/// One row of the `urls` table.
pub struct UrlRow {
    /// Internal id of the URL entry; the join key of the other tables.
    pub id: Option<i64>,
    /// Full text of the URL.
    pub url: Option<String>,
    /// How often the entry was visited.
    pub visit_count: Option<i64>,
    /// Store-epoch microseconds of the most recent visit of the entry.
    pub last_visit_time: Option<i64>,
}

/// One row of the `keyword_search_terms` table.
pub struct SearchTermRow {
    /// Id of the URL entry the search led to.
    pub url_id: Option<i64>,
    /// Canonical text of the search query.
    pub normalized_term: Option<String>,
}

/// One row of the `visits` table.
pub struct VisitRow {
    /// Id of the visited URL entry.
    pub url_id: Option<i64>,
    /// Store-epoch microseconds of the visit event.
    pub visit_time: Option<i64>,
    /// Microseconds spent on the page.
    pub visit_duration: Option<i64>,
}

} // verus!
