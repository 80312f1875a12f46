//! A TCP port scanner's core: classification of probe results, the
//! partition of a port list into work groups, the bounded-concurrency
//! schedule inside one group, and the merge of all groups' outcomes.

pub mod outcome;
pub mod chunks;
pub mod work_group;
pub mod merge;
pub mod config;
