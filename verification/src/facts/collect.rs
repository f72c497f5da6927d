//! The decisions of a fleet sweep: what a device's report says, given
//! whether it has an `ssh` target and what its battery run returned.

use vstd::prelude::*;
use crate::facts::parse::{battery_facts, parse_battery, parse_routeros_battery, routeros_facts};
use crate::facts::schema::{AccessState, HostFacts, HostFactsModel, HostReport};
use crate::inventory::devices::{CollectorKind, Device};

verus! {

/// The facts a collector's parser reads from raw battery output.
pub open spec fn collected_facts(kind: CollectorKind, raw: Seq<char>) -> HostFactsModel {
    match kind {
        CollectorKind::Linux => battery_facts(raw),
        CollectorKind::Routeros => routeros_facts(raw),
    }
}

/// Parses raw battery output with the parser of the device's collector.
pub fn parse_for(kind: CollectorKind, raw: &str) -> (r: HostFacts)
    ensures
        r@ == collected_facts(kind, raw@),
{
    match kind {
        CollectorKind::Linux => parse_battery(raw),
        CollectorKind::Routeros => parse_routeros_battery(raw),
    }
}

/// The sweep's record for one device. `outcome` is `None` when the device
/// declares no `ssh` target (nothing was run), else the battery's raw
/// output or the failure detail. A device without access, or whose sweep
/// failed, is recorded as such — never guessed at.
pub fn host_report(device: &Device, outcome: Option<Result<String, String>>) -> (r: HostReport)
    ensures
        r.id@ == device.id@,
        match outcome {
            None => r.access == AccessState::NoSshConfigured && r.error is None && r.facts is None,
            Some(Ok(raw)) => r.access == AccessState::Okay && r.error is None && r.facts is Some
                && (r.facts->0)@ == collected_facts(device.collector, raw@),
            Some(Err(detail)) => r.access == AccessState::Failed && r.error.deep_view() == Some(
                detail@,
            ) && r.facts is None,
        },
{
    let id = device.id.clone();
    match outcome {
        None => HostReport { id, access: AccessState::NoSshConfigured, error: None, facts: None },
        Some(Ok(raw)) => {
            let facts = parse_for(device.collector, raw.as_str());
            HostReport { id, access: AccessState::Okay, error: None, facts: Some(facts) }
        },
        Some(Err(detail)) => HostReport {
            id,
            access: AccessState::Failed,
            error: Some(detail),
            facts: None,
        },
    }
}

} // verus!
