//! Windowed, column-projected, row-wise rendering of batched columnar data.
//!
//! The crate turns "first N rows" / "last N rows" / "all rows" requests into
//! batch-level skip/take operations, projects a subset of columns by name,
//! and converts each typed cell into a display string through a closed type
//! dispatch, emitting rows incrementally.

pub mod batch;
pub mod format;
pub mod kind;
pub mod projection;
pub mod schema;
pub mod stream;
pub mod window;

pub use batch::{Batch, Column};
pub use kind::{CellValue, ElementKind};
pub use projection::{project, ColumnSelection, ProjectionMode};
pub use schema::{FieldDescriptor, Schema};
pub use stream::{render_rows, FormatError, RowStream};
pub use window::{batch_split, plan, plan_stream, BatchPlan, StreamPlan, Window, WindowPlan};
