//! Column statistics of a columnar table store: per-column summaries for
//! blocks, segments and snapshots, and the merge algebra that combines them.
pub mod assoc;
pub mod binary_fmt;
pub mod column_stats;
pub mod computed_columns;
pub mod error;
pub mod laws;
pub mod sub_column_stats;
pub mod statistics;
pub mod summary;
pub mod value;
