//! Verified core of a two-data-center placement skyline computation.
//!
//! Given a set of data centers, a pairwise distance table and per-client
//! latencies, the library enumerates every ordered placement of two data
//! centers that satisfies a minimum-distance constraint, computes each
//! placement's per-client write/read latency profile, and isolates the
//! skyline: the placements not strictly dominated by any other valid
//! placement. The computation is organised as a push-based dataflow of
//! accumulating operators (cross-join, difference, running count), grouped
//! into stages that a driver may run on one thread or on many.

pub mod combinatorics;
pub mod coordinator;
pub mod cross_join;
pub mod difference;
pub mod monolith;
pub mod pipeline;
pub mod placement;
pub mod stages;
pub mod workload;
