//! Accumulating one shared binary64 total from many concurrent workers, by
//! three strategies, with the arithmetic done exactly on bit patterns.

pub mod binary64;
pub mod rounding;
pub mod partial_sum;
pub mod total;
pub mod accumulate;
pub mod trial;
pub mod summary;
