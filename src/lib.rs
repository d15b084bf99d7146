//! A CPU micro-benchmark over a bounded pool of kernel objects, with the
//! mutation routine, the cyclic pool update and the running checksum stated
//! and proved.
pub mod kernel_object;
pub mod bench;

pub use bench::{run, Benchmark, Progress, ARRAY_SIZE, ITERATIONS, REPORT_EVERY};
pub use kernel_object::{KernelObject, DATA_LEN, MASK};
