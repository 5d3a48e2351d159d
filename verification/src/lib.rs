use vstd::prelude::*;

pub mod api;
pub mod args;
pub mod bearer;
pub mod cache;
pub mod cluster;
pub mod event;
pub mod frame;
pub mod json;
pub mod output;
pub mod serve;
pub mod text;
pub mod watch;

verus! {

/// A revision counter, parsed from an upstream `resourceVersion` string.
/// Within one watch it is monotonically non-decreasing.
pub type ResourceVersion = u64;

} // verus!
