//! The `facts/<date>.json` evidence format: one dated sweep, one entry per
//! declared device, honest about what could not be observed.

use vstd::prelude::*;
use crate::text::seq_views;

verus! {

/// A dated fact sweep across the declared fleet.
#[derive(Debug, Clone)]
pub struct FactsFile {
    /// Local wall-clock time the sweep started, RFC 3339 with offset.
    pub collected_at: String,
    /// One entry per declared device, in `devices.toml` order.
    pub hosts: Vec<HostReport>,
}

/// What the sweep observed (or could not observe) on one device.
#[derive(Debug, Clone)]
pub struct HostReport {
    /// Device id from `devices.toml`.
    pub id: String,
    /// Whether the device could be swept.
    pub access: AccessState,
    /// Failure detail when `access` is not `ok`.
    pub error: Option<String>,
    /// Parsed evidence when `access` is `ok`.
    pub facts: Option<HostFacts>,
}

/// Whether a device could be swept.
#[derive(Debug, Clone, Copy, PartialEq, Eq, Structural)]
pub enum AccessState {
    /// The battery ran and parsed.
    Okay,
    /// The device declares no `ssh` target — access not provisioned.
    NoSshConfigured,
    /// SSH failed (host down, key rejected, timeout).
    Failed,
}

/// Evidence parsed from one device's command battery.
#[derive(Debug, Clone)]
pub struct HostFacts {
    /// Reported hostname.
    pub hostname: Option<String>,
    /// OS pretty name.
    pub os: Option<String>,
    /// Kernel release.
    pub kernel: Option<String>,
    /// Proxmox VE version, on hypervisor hosts.
    pub pve_version: Option<String>,
    /// Baseboard vendor and product from DMI.
    pub motherboard: Option<String>,
    /// CPU model name from `lscpu`.
    pub cpu_model: Option<String>,
    /// Populated sockets.
    pub sockets: Option<i64>,
    /// Cores per socket.
    pub cores_per_socket: Option<i64>,
    /// Threads per core (2 = SMT on).
    pub threads_per_core: Option<i64>,
    /// NUMA nodes exposed (NPS setting on EPYC).
    pub numa_nodes: Option<i64>,
    /// Sum of installed DIMM sizes in GB.
    pub ram_installed_gb: Option<i64>,
    /// Populated DIMM count.
    pub dimms_populated: Option<i64>,
    /// Empty DIMM slots.
    pub dimm_slots_empty: Option<i64>,
    /// GPUs from `nvidia-smi`.
    pub gpus: Vec<GpuFacts>,
    /// Whether any NVLink connection appears in the GPU topology matrix.
    pub nvlink: Option<bool>,
    /// Accelerator/fabric PCI devices (deduplicated, `Nx ` prefix on repeats).
    pub pci_devices: Vec<String>,
    /// InfiniBand ports (`<sysfs path>|<rate>|<state>|<link layer>`).
    pub ib_ports: Vec<String>,
    /// Interface addresses.
    pub addresses: Vec<AddressFacts>,
    /// Physical drives (`lsblk` name, size, model).
    pub disks: Vec<String>,
    /// Guests on hypervisor hosts, from `qm list` and `pct list`.
    pub guests: Vec<GuestFacts>,
}

/// One GPU as `nvidia-smi` reports it.
#[derive(Debug, Clone)]
pub struct GpuFacts {
    /// Product name.
    pub name: String,
    /// Memory in MiB.
    pub memory_mib: i64,
}

/// One interface and its addresses.
#[derive(Debug, Clone)]
pub struct AddressFacts {
    /// Interface name.
    pub interface: String,
    /// CIDR addresses on the interface.
    pub addresses: Vec<String>,
}

/// One guest on a hypervisor.
#[derive(Debug, Clone)]
pub struct GuestFacts {
    /// VM or CT.
    pub kind: GuestKind,
    /// Numeric guest id.
    pub vmid: i64,
    /// Guest name.
    pub name: String,
    /// Status as the hypervisor reports it (`running`, `stopped`, …).
    pub status: String,
}

/// Guest flavor.
#[derive(Debug, Clone, Copy, PartialEq, Eq, Structural)]
pub enum GuestKind {
    /// QEMU virtual machine.
    Vm,
    /// LXC container.
    Ct,
}

/// The `VM`/`CT` prefix of a guest kind.
pub open spec fn kind_prefix(k: GuestKind) -> Seq<char> {
    match k {
        GuestKind::Vm => "VM"@,
        GuestKind::Ct => "CT"@,
    }
}

impl GuestKind {
    /// The `VM`/`CT` prefix used in declared guest strings.
    pub fn prefix(self) -> (r: &'static str)
        ensures
            r@ == kind_prefix(self),
    {
        match self {
            GuestKind::Vm => "VM",
            GuestKind::Ct => "CT",
        }
    }
}

/// The abstract content of a [`GpuFacts`].
#[verifier::ext_equal]
pub struct GpuModel {
    pub name: Seq<char>,
    pub memory_mib: i64,
}

/// The abstract content of an [`AddressFacts`].
#[verifier::ext_equal]
pub struct AddressModel {
    pub interface: Seq<char>,
    pub addresses: Seq<Seq<char>>,
}

/// The abstract content of a [`GuestFacts`].
#[verifier::ext_equal]
pub struct GuestModel {
    pub kind: GuestKind,
    pub vmid: i64,
    pub name: Seq<char>,
    pub status: Seq<char>,
}

/// The abstract content of a [`HostFacts`].
#[verifier::ext_equal]
pub struct HostFactsModel {
    pub hostname: Option<Seq<char>>,
    pub os: Option<Seq<char>>,
    pub kernel: Option<Seq<char>>,
    pub pve_version: Option<Seq<char>>,
    pub motherboard: Option<Seq<char>>,
    pub cpu_model: Option<Seq<char>>,
    pub sockets: Option<i64>,
    pub cores_per_socket: Option<i64>,
    pub threads_per_core: Option<i64>,
    pub numa_nodes: Option<i64>,
    pub ram_installed_gb: Option<i64>,
    pub dimms_populated: Option<i64>,
    pub dimm_slots_empty: Option<i64>,
    pub gpus: Seq<GpuModel>,
    pub nvlink: Option<bool>,
    pub pci_devices: Seq<Seq<char>>,
    pub ib_ports: Seq<Seq<char>>,
    pub addresses: Seq<AddressModel>,
    pub disks: Seq<Seq<char>>,
    pub guests: Seq<GuestModel>,
}

impl View for GpuFacts {
    type V = GpuModel;

    open spec fn view(&self) -> GpuModel {
        GpuModel { name: self.name@, memory_mib: self.memory_mib }
    }
}

impl View for AddressFacts {
    type V = AddressModel;

    open spec fn view(&self) -> AddressModel {
        AddressModel { interface: self.interface@, addresses: self.addresses.deep_view() }
    }
}

impl View for GuestFacts {
    type V = GuestModel;

    open spec fn view(&self) -> GuestModel {
        GuestModel { kind: self.kind, vmid: self.vmid, name: self.name@, status: self.status@ }
    }
}

impl View for HostFacts {
    type V = HostFactsModel;

    open spec fn view(&self) -> HostFactsModel {
        HostFactsModel {
            hostname: self.hostname.deep_view(),
            os: self.os.deep_view(),
            kernel: self.kernel.deep_view(),
            pve_version: self.pve_version.deep_view(),
            motherboard: self.motherboard.deep_view(),
            cpu_model: self.cpu_model.deep_view(),
            sockets: self.sockets,
            cores_per_socket: self.cores_per_socket,
            threads_per_core: self.threads_per_core,
            numa_nodes: self.numa_nodes,
            ram_installed_gb: self.ram_installed_gb,
            dimms_populated: self.dimms_populated,
            dimm_slots_empty: self.dimm_slots_empty,
            gpus: seq_views(self.gpus@),
            nvlink: self.nvlink,
            pci_devices: self.pci_devices.deep_view(),
            ib_ports: self.ib_ports.deep_view(),
            addresses: seq_views(self.addresses@),
            disks: self.disks.deep_view(),
            guests: seq_views(self.guests@),
        }
    }
}

/// The facts of a host on which nothing was observed.
pub open spec fn empty_facts() -> HostFactsModel {
    HostFactsModel {
        hostname: None,
        os: None,
        kernel: None,
        pve_version: None,
        motherboard: None,
        cpu_model: None,
        sockets: None,
        cores_per_socket: None,
        threads_per_core: None,
        numa_nodes: None,
        ram_installed_gb: None,
        dimms_populated: None,
        dimm_slots_empty: None,
        gpus: seq![],
        nvlink: None,
        pci_devices: seq![],
        ib_ports: seq![],
        addresses: seq![],
        disks: seq![],
        guests: seq![],
    }
}

impl Default for HostFacts {
    fn default() -> (r: HostFacts)
        ensures
            r@ == empty_facts(),
    {
        let r = HostFacts {
            hostname: None,
            os: None,
            kernel: None,
            pve_version: None,
            motherboard: None,
            cpu_model: None,
            sockets: None,
            cores_per_socket: None,
            threads_per_core: None,
            numa_nodes: None,
            ram_installed_gb: None,
            dimms_populated: None,
            dimm_slots_empty: None,
            gpus: Vec::new(),
            nvlink: None,
            pci_devices: Vec::new(),
            ib_ports: Vec::new(),
            addresses: Vec::new(),
            disks: Vec::new(),
            guests: Vec::new(),
        };
        assert(r@.gpus =~= seq![]);
        assert(r@.pci_devices =~= seq![]);
        assert(r@.ib_ports =~= seq![]);
        assert(r@.addresses =~= seq![]);
        assert(r@.disks =~= seq![]);
        assert(r@.guests =~= seq![]);
        r
    }
}

} // verus!
