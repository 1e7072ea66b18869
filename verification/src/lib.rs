//! Verified core of a load generator for a Sui network: the rules by which
//! gas coins are split and handed out to workloads, the rotation of
//! transfer-object payloads, and the weighted combination of workloads.

pub mod base_types;
pub mod encoding;
pub mod sampling;
pub mod search;
pub mod util;
pub mod workloads;
