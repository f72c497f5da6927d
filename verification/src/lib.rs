//! Reconcile a declared fleet against observed reality: the verified core of
//! the fact parsers, the reconciler, the registry collision gate, the NetBox
//! escrow transforms and the report renderers.

pub mod text;
pub mod json;
pub mod sort;
pub mod facts;
pub mod inventory;
pub mod report;
pub mod netbox;
