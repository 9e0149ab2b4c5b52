use vstd::prelude::*;

pub mod text;
pub mod store;
pub mod recorder;
pub mod render;
pub mod exporter;
pub mod metrics;

pub use exporter::ExportSchedule;
pub use metrics::{CompletionEvent, Dispatch, Metrics, MetricsResponse, StreamEvent, StreamLog};
pub use store::{Kind, Label, Measurement, MetricError, MetricKey, MetricStore, Snapshot};

verus! {

} // verus!
