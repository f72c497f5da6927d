//! Typed access to the fleet's declared data — device, network, and guest
//! inventory, the capex ledger, the cooling model — and the collision gate
//! over the declared allocations.

pub mod capex;
pub mod devices;
pub mod probes;
pub mod registry;
pub mod site;
pub mod thermal;
pub mod workloads;
