//! Heap-allocation profiling: per-call-site aggregation of allocation
//! events, symbol cleaning and frame filtering, and grouped / compared
//! reports over immutable snapshots.

pub mod text;
pub mod symbols;
pub mod profiler;
pub mod reporter;

pub use profiler::{AllocationProfiler, AllocationSite, ProfileSnapshot};
pub use reporter::Reporter;
pub use backtrace::Backtrace;
