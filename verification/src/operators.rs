//! The operator set: independently testable units of computation, each a
//! pure transform from typed input to typed output.

pub mod knn;
pub mod merge;
pub mod log;
pub mod filter;
pub mod projection;
pub mod spann;
