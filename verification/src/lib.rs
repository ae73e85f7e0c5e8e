//! Verified core of a scheduling-latency sampler.
//!
//! The sampler measures how far a thread's actual sleep overshoots the
//! requested period and folds the observed overshoots into running
//! minimum, maximum and sum aggregates, reported in whole microseconds.
//! Everything here is pure computation: the clock, the sleep and the
//! command line live outside the library and hand in plain integers.

pub mod parse;
pub mod sampler;
pub mod stats;
