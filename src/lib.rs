//! A dense 2-D grid addressed through interchangeable coordinate conventions,
//! with neighbour lookup, wrap-around and partitioning into sub-regions.
mod col_iters;
mod error;
mod grid;
mod index;
mod intogrid;
mod neighbors;
pub mod origin;
mod quaditers;
mod regions;
mod row_iters;
pub mod xyneightbor;

pub use col_iters::{ColIter, MutColIter};
pub use error::GridError;
pub use grid::{Grid, GridOptions, Origin};
pub use index::{adjust_from_origin, xy_to_index, Coordinates, Index};
pub use intogrid::IntoGrid;
pub use quaditers::NrantIterator;
pub use row_iters::{MutRowIter, RowIter};
pub use xyneightbor::XyNeighbor;
