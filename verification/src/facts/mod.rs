//! Read-only hardware fact collection and declared-vs-actual reconciliation:
//! every check lands as ok, drift, or unverified — a host that is powered off
//! or has no provisioned access is reported unverified, never assumed to
//! match.

pub mod collect;
pub mod parse;
pub mod reconcile;
pub mod schema;
pub mod serial;
pub mod float;
