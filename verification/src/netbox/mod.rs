//! The NetBox git escrow: the canonical export, its id-independent logical
//! view, the adapter back to the declared inventory, and the decisions of
//! the pull and restore sessions.

pub mod canonical;
pub mod declared;
pub mod logical;
pub mod plan;
pub mod renumber;
pub mod reorder;
pub mod pull;
pub mod restore;
