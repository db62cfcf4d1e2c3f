//! An in-memory table engine: labelled series and tables of equal-length
//! columns, sliced by label or by position, grouped by key and joined on
//! their row labels.

pub mod column;
pub mod computations;
pub mod error;
pub mod frame;
pub mod groupby;
pub mod grouper;
pub mod indexer;
pub mod join;
pub mod label;
pub mod laws;
pub mod lookup;
pub mod multi;
pub mod number;
pub mod positions;
pub mod reshape;
pub mod series;
pub mod share;
pub mod sort;
pub mod text;
pub mod traits;

pub use error::Error;
pub use frame::DataFrame;
pub use groupby::GroupBy;
pub use indexer::Indexer;
pub use label::{Label, Ordinal, SortKey};
pub use number::Number;
pub use series::Series;
pub use traits::RowIndex;
