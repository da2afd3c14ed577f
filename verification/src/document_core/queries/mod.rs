//! Queries and edits over the document model.

pub mod cell_info;
pub mod field_query;
