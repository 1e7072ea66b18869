//! The workloads of the benchmark and the payloads they hand out.

pub mod transfer_object;
pub mod workload;
