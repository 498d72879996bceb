//! Dense matrix multiplication decomposed into independent dot-product
//! tasks that a fixed pool of workers can run, together with small keyed
//! counters.

pub mod error;
mod keyed;
pub mod matrix;
pub mod metrics;
pub mod text;
pub mod vector;

pub use error::MatrixError;
pub use matrix::{make_task, multiply, run_task, worker_for, Matrix, Reply, Task, POOL_SIZE};
pub use metrics::amap::AmapMetrics;
pub use metrics::Metrics;
pub use vector::{dot_product, Vector};
