//! Schema of `inventory/workloads.toml`: typical workloads per node, the
//! typed guest registry (VMID/IP/placement, one row per guest), and the
//! older free-text guest placement the reconciler still reads.

use vstd::prelude::*;

verus! {

/// Top-level shape of `inventory/workloads.toml`.
#[derive(Debug, Clone)]
pub struct WorkloadsFile {
    /// Typical workloads, one entry per (node, workload).
    pub workload: Vec<Workload>,
    /// Free-text guest placement per host (superseded by `guest_record`;
    /// still what the reconciler diffs against the hypervisor sweep).
    pub guest: Vec<GuestPlacement>,
    /// The typed guest registry: one row per VM/CT.
    pub guest_record: Vec<GuestRecord>,
}

/// One typical workload on a node.
#[derive(Debug, Clone)]
pub struct Workload {
    /// Device id of the hosting node.
    pub node: String,
    /// Workload name.
    pub name: String,
    /// Workload category.
    pub kind: String,
    /// Resources it consumes.
    pub resources: String,
}

/// The guests recorded on one host, as free-text descriptions.
#[derive(Debug, Clone)]
pub struct GuestPlacement {
    /// Device id of the host.
    pub host: String,
    /// Guest descriptions, one per VM/CT.
    pub guests: Vec<String>,
}

/// One guest in the typed registry — the declared identity of a single VM
/// or container.
#[derive(Debug, Clone)]
pub struct GuestRecord {
    /// Proxmox guest id; unique per host.
    pub vmid: u32,
    /// Guest name, as the hypervisor reports it.
    pub name: String,
    /// Device id of the host this guest is placed on.
    pub host: String,
    /// Whether the guest is a full VM or a container.
    pub kind: GuestKind,
    /// LAN address, where one is allocated.
    pub ip_lan: Option<String>,
    /// Fabric (IPoIB) address, where one is allocated.
    pub ip_fabric: Option<String>,
    /// How `ip_lan` actually gets applied on the guest.
    pub ip_assignment: Option<IpAssignment>,
    /// Last known power state.
    pub status: GuestStatus,
    /// Free-form operator note.
    pub notes: Option<String>,
}

/// How a guest's `ip_lan` is actually made to stick.
#[derive(Debug, Clone, Copy, PartialEq, Eq, Structural)]
pub enum IpAssignment {
    /// Declared in the guest's own OS config and enforced independently of
    /// any network-side state.
    Declared,
    /// A DHCP reservation keyed to the guest's MAC, held outside this repo.
    DhcpReservation,
    /// A plain, unreserved DHCP lease.
    DhcpDynamic,
    /// The mechanism has not been verified.
    Unverified,
}

/// Whether a guest is a full VM or a container.
#[derive(Debug, Clone, Copy, PartialEq, Eq, Structural)]
pub enum GuestKind {
    /// Full virtual machine (`qm`); id renders as `VM<vmid>`.
    Vm,
    /// LXC container (`pct`); id renders as `CT<vmid>`.
    Ct,
}

/// The id prefix of a guest kind.
pub open spec fn kind_prefix(k: GuestKind) -> Seq<char> {
    match k {
        GuestKind::Vm => "VM"@,
        GuestKind::Ct => "CT"@,
    }
}

impl GuestKind {
    /// The id prefix the hypervisor and the free-text placement use
    /// (`"VM"` / `"CT"`).
    pub fn prefix(self) -> (r: &'static str)
        ensures
            r@ == kind_prefix(self),
    {
        match self {
            GuestKind::Vm => "VM",
            GuestKind::Ct => "CT",
        }
    }
}

/// A guest's last known power state.
#[derive(Debug, Clone, Copy, PartialEq, Eq, Structural)]
pub enum GuestStatus {
    /// Powered on.
    Running,
    /// Powered off.
    Stopped,
}

/// The abstract content of a [`GuestPlacement`].
#[verifier::ext_equal]
pub struct PlacementModel {
    pub host: Seq<char>,
    pub guests: Seq<Seq<char>>,
}

impl View for GuestPlacement {
    type V = PlacementModel;

    open spec fn view(&self) -> PlacementModel {
        PlacementModel { host: self.host@, guests: self.guests.deep_view() }
    }
}

/// The abstract content of a [`GuestRecord`].
#[verifier::ext_equal]
pub struct RecordModel {
    pub vmid: u32,
    pub name: Seq<char>,
    pub host: Seq<char>,
    pub kind: GuestKind,
    pub ip_lan: Option<Seq<char>>,
    pub ip_fabric: Option<Seq<char>>,
    pub ip_assignment: Option<IpAssignment>,
    pub status: GuestStatus,
    pub notes: Option<Seq<char>>,
}

impl View for GuestRecord {
    type V = RecordModel;

    open spec fn view(&self) -> RecordModel {
        RecordModel {
            vmid: self.vmid,
            name: self.name@,
            host: self.host@,
            kind: self.kind,
            ip_lan: self.ip_lan.deep_view(),
            ip_fabric: self.ip_fabric.deep_view(),
            ip_assignment: self.ip_assignment,
            status: self.status,
            notes: self.notes.deep_view(),
        }
    }
}

/// The abstract content of a [`Workload`].
#[verifier::ext_equal]
pub struct WorkloadModel {
    pub node: Seq<char>,
    pub name: Seq<char>,
    pub kind: Seq<char>,
    pub resources: Seq<char>,
}

impl View for Workload {
    type V = WorkloadModel;

    open spec fn view(&self) -> WorkloadModel {
        WorkloadModel {
            node: self.node@,
            name: self.name@,
            kind: self.kind@,
            resources: self.resources@,
        }
    }
}

} // verus!
