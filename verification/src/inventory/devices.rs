//! Schema of `inventory/devices.toml`: one entry per chassis, with
//! TDP-modeled power figures (held in milliwatts).

use vstd::prelude::*;
use crate::text::seq_views;

verus! {

/// Top-level shape of `inventory/devices.toml`.
#[derive(Debug, Clone)]
pub struct DevicesFile {
    /// One entry per chassis.
    pub device: Vec<Device>,
}

/// One physical device.
#[derive(Debug, Clone)]
pub struct Device {
    /// Stable identifier; matches the probe id where one exists.
    pub id: String,
    /// Display name.
    pub name: String,
    /// One-line role description.
    pub role: String,
    /// Hardware model, where recorded.
    pub model: Option<String>,
    /// LAN address, for LAN-attached devices.
    pub ip_lan: Option<String>,
    /// Fabric address, for fabric-attached devices.
    pub ip_fabric: Option<String>,
    /// Management-network address, for devices whose only IP is on the
    /// mgmt net.
    pub ip_mgmt: Option<String>,
    /// SSH target (`user@host`) for the read-only fact sweep. Absent means
    /// no access is provisioned; the device reports as unverified.
    pub ssh: Option<String>,
    /// Which command battery the fact sweep runs on this device.
    pub collector: CollectorKind,
    /// Out-of-band management controller, as a display string.
    pub bmc: Option<String>,
    /// Baseboard vendor and product, exactly as DMI reports it.
    pub motherboard: Option<String>,
    /// CPU description, where recorded (prose, for the report).
    pub cpu: Option<String>,
    /// CPU model substring the fact sweep's `lscpu` output must contain.
    pub cpu_model: Option<String>,
    /// Installed RAM in GB, where recorded.
    pub ram_gb: Option<i64>,
    /// Fabric HCA family substring the sweep's PCI listing must contain.
    pub fabric_hca: Option<String>,
    /// Installed drives, as `lsblk` model strings (informational).
    pub disks: Vec<String>,
    /// Modeled typical draw, in milliwatts.
    pub power_typical_mw: i64,
    /// Modeled peak draw, in milliwatts.
    pub power_peak_mw: i64,
    /// True while power figures are TDP-modeled rather than PDU-measured.
    pub power_estimate: bool,
    /// True when the device is deliberately kept offline.
    pub expected_offline: bool,
    /// Source-of-truth catalog entity, or `"none"` to flag an onboarding gap.
    pub source_of_truth: Option<String>,
    /// Free-form operator note.
    pub notes: Option<String>,
    /// Installed accelerators.
    pub accelerator: Vec<Accelerator>,
}

/// Which command battery the fact sweep runs on a device.
#[derive(Debug, Clone, Copy, PartialEq, Eq, Structural)]
pub enum CollectorKind {
    /// POSIX shell battery (dmidecode, lscpu, nvidia-smi, qm/pct, …).
    Linux,
    /// RouterOS `print` battery for network devices.
    Routeros,
}

impl Default for CollectorKind {
    fn default() -> (r: CollectorKind)
        ensures
            r == CollectorKind::Linux,
    {
        CollectorKind::Linux
    }
}

/// An accelerator group inside a device.
#[derive(Debug, Clone)]
pub struct Accelerator {
    /// Accelerator model.
    pub model: String,
    /// Number installed.
    pub count: i64,
    /// Per-unit power, in milliwatts.
    pub power_each_mw: i64,
}

/// The abstract content of an [`Accelerator`].
#[verifier::ext_equal]
pub struct AcceleratorModel {
    pub model: Seq<char>,
    pub count: i64,
    pub power_each_mw: i64,
}

impl View for Accelerator {
    type V = AcceleratorModel;

    open spec fn view(&self) -> AcceleratorModel {
        AcceleratorModel { model: self.model@, count: self.count, power_each_mw: self.power_each_mw }
    }
}

/// The abstract content of a [`Device`].
#[verifier::ext_equal]
pub struct DeviceModel {
    pub id: Seq<char>,
    pub name: Seq<char>,
    pub role: Seq<char>,
    pub model: Option<Seq<char>>,
    pub ip_lan: Option<Seq<char>>,
    pub ip_fabric: Option<Seq<char>>,
    pub ip_mgmt: Option<Seq<char>>,
    pub ssh: Option<Seq<char>>,
    pub collector: CollectorKind,
    pub bmc: Option<Seq<char>>,
    pub motherboard: Option<Seq<char>>,
    pub cpu: Option<Seq<char>>,
    pub cpu_model: Option<Seq<char>>,
    pub ram_gb: Option<i64>,
    pub fabric_hca: Option<Seq<char>>,
    pub disks: Seq<Seq<char>>,
    pub power_typical_mw: i64,
    pub power_peak_mw: i64,
    pub power_estimate: bool,
    pub expected_offline: bool,
    pub source_of_truth: Option<Seq<char>>,
    pub notes: Option<Seq<char>>,
    pub accelerator: Seq<AcceleratorModel>,
}

impl View for Device {
    type V = DeviceModel;

    open spec fn view(&self) -> DeviceModel {
        DeviceModel {
            id: self.id@,
            name: self.name@,
            role: self.role@,
            model: self.model.deep_view(),
            ip_lan: self.ip_lan.deep_view(),
            ip_fabric: self.ip_fabric.deep_view(),
            ip_mgmt: self.ip_mgmt.deep_view(),
            ssh: self.ssh.deep_view(),
            collector: self.collector,
            bmc: self.bmc.deep_view(),
            motherboard: self.motherboard.deep_view(),
            cpu: self.cpu.deep_view(),
            cpu_model: self.cpu_model.deep_view(),
            ram_gb: self.ram_gb,
            fabric_hca: self.fabric_hca.deep_view(),
            disks: self.disks.deep_view(),
            power_typical_mw: self.power_typical_mw,
            power_peak_mw: self.power_peak_mw,
            power_estimate: self.power_estimate,
            expected_offline: self.expected_offline,
            source_of_truth: self.source_of_truth.deep_view(),
            notes: self.notes.deep_view(),
            accelerator: seq_views(self.accelerator@),
        }
    }
}

} // verus!
