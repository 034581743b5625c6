//! Extraction of browsing-history artifacts from a Chromium-family
//! (Vivaldi) history store: search-term aggregation, page-visit listing,
//! conversion of the store's microsecond timestamps to calendar time, and
//! JSON serialization of the resulting records.

pub mod cli;
pub mod json;
pub mod rows;
pub mod search;
pub mod store;
pub mod timestamp;
pub mod visits;

pub use cli::get_common_args;
pub use search::SearchRecord;
pub use store::QueryError;
pub use store::get_search_records;
pub use store::get_visit_records;
pub use timestamp::Timestamp;
pub use timestamp::convert_timestamp;
pub use visits::VisitRecord;
