//! Build-execution metrics: records of CI job runs are merged by build name,
//! put in time order, filtered by name prefix and time range, split into
//! fixed-width windows anchored at a reference instant, and summarized by
//! mean and median per window and overall.
use vstd::prelude::*;

pub mod cli;
pub mod metrics;
pub mod report;
pub mod sample;
pub mod select;
pub mod stats;
pub mod store;

verus! {

} // verus!
