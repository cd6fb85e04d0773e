//! Workload generation for key-value stores: key sets, the operation
//! line format, operation scheduling and benchmark bookkeeping.
pub mod keys;
pub mod hashing;
pub mod std_collections;
pub mod keyset;
pub mod op_line;
pub mod workload;
pub mod markers;
pub mod generation;
pub mod timings;
pub mod db;
pub mod stats;
pub mod step;
