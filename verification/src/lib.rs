//! A disk-space monitor library.
//!
//! The library parses the tabular output of a disk-usage reporting utility
//! into usage records, evaluates those records against a watch-list and a
//! used-percentage threshold, and prepares webhook notification messages for
//! every watched filesystem that is over threshold. All percentage arithmetic
//! is done in hundredths of a percent, so that threshold comparisons are
//! exact. The surrounding process (subprocess invocation, environment
//! lookups, HTTP delivery, sleeping) lives outside the library and hands in
//! plain strings.

pub mod monitor;
pub mod notify;
pub mod percent;
pub mod sampler;
pub mod text;
