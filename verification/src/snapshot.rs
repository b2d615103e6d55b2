//! One consistent point-in-time read of the hardware counters, as plain
//! values, and the mathematical model of each record.

use crate::binary32::Binary32;
use vstd::prelude::*;

verus! {

/// One CPU core: the brand of its processor and its usage in percent.
#[derive(Clone, Debug)]
pub struct Cpu {
    pub brand: String,
    pub usage: Binary32,
}

/// Memory counters, in bytes.
#[derive(Clone, Copy, Debug)]
pub struct Memory {
    pub total: u64,
    pub used: u64,
    pub free: u64,
    pub available: u64,
}

/// Swap counters, in bytes.
#[derive(Clone, Copy, Debug)]
pub struct Swap {
    pub total: u64,
    pub used: u64,
    pub free: u64,
}

/// A labeled temperature sensor, in degrees Celsius.
#[derive(Clone, Debug)]
pub struct Sensor {
    pub label: String,
    pub temperature: Binary32,
}

/// A disk: the name as it is shown, and its capacity in bytes.
#[derive(Clone, Debug)]
pub struct Disk {
    pub name: String,
    pub total_space: u64,
    pub available_space: u64,
}

/// A network interface: bytes of the last interval and cumulative totals.
#[derive(Clone, Debug)]
pub struct Network {
    pub name: String,
    pub received: u64,
    pub transmitted: u64,
    pub total_received: u64,
    pub total_transmitted: u64,
}

/// Everything that one cycle reads.
#[derive(Clone, Debug)]
pub struct Snapshot {
    pub cpus: Vec<Cpu>,
    pub memory: Memory,
    pub swap: Swap,
    pub sensors: Vec<Sensor>,
    pub disks: Vec<Disk>,
    pub networks: Vec<Network>,
}

/// The model of a `Cpu`.
pub struct CpuModel {
    pub brand: Seq<char>,
    pub usage: Binary32,
}

/// The model of a `Sensor`.
pub struct SensorModel {
    pub label: Seq<char>,
    pub temperature: Binary32,
}

/// The model of a `Disk`.
pub struct DiskModel {
    pub name: Seq<char>,
    pub total_space: nat,
    pub available_space: nat,
}

/// The model of a `Network`.
pub struct NetworkModel {
    pub name: Seq<char>,
    pub received: nat,
    pub transmitted: nat,
    pub total_received: nat,
    pub total_transmitted: nat,
}

/// The model of a `Snapshot`.
pub struct SnapshotModel {
    pub cpus: Seq<CpuModel>,
    pub memory: Memory,
    pub swap: Swap,
    pub sensors: Seq<SensorModel>,
    pub disks: Seq<DiskModel>,
    pub networks: Seq<NetworkModel>,
}

impl View for Cpu {
    type V = CpuModel;

    open spec fn view(&self) -> CpuModel {
        CpuModel { brand: self.brand@, usage: self.usage }
    }
}

impl DeepView for Cpu {
    type V = CpuModel;

    open spec fn deep_view(&self) -> CpuModel {
        self@
    }
}

impl View for Sensor {
    type V = SensorModel;

    open spec fn view(&self) -> SensorModel {
        SensorModel { label: self.label@, temperature: self.temperature }
    }
}

impl DeepView for Sensor {
    type V = SensorModel;

    open spec fn deep_view(&self) -> SensorModel {
        self@
    }
}

impl View for Disk {
    type V = DiskModel;

    open spec fn view(&self) -> DiskModel {
        DiskModel {
            name: self.name@,
            total_space: self.total_space as nat,
            available_space: self.available_space as nat,
        }
    }
}

impl DeepView for Disk {
    type V = DiskModel;

    open spec fn deep_view(&self) -> DiskModel {
        self@
    }
}

impl View for Network {
    type V = NetworkModel;

    open spec fn view(&self) -> NetworkModel {
        NetworkModel {
            name: self.name@,
            received: self.received as nat,
            transmitted: self.transmitted as nat,
            total_received: self.total_received as nat,
            total_transmitted: self.total_transmitted as nat,
        }
    }
}

impl DeepView for Network {
    type V = NetworkModel;

    open spec fn deep_view(&self) -> NetworkModel {
        self@
    }
}

impl View for Snapshot {
    type V = SnapshotModel;

    open spec fn view(&self) -> SnapshotModel {
        SnapshotModel {
            cpus: self.cpus.deep_view(),
            memory: self.memory,
            swap: self.swap,
            sensors: self.sensors.deep_view(),
            disks: self.disks.deep_view(),
            networks: self.networks.deep_view(),
        }
    }
}

impl DiskModel {
    /// Whether the space that is available is part of the total.
    pub open spec fn wf(self) -> bool {
        self.available_space <= self.total_space
    }

    /// The space in use.
    pub open spec fn used_space(self) -> nat {
        (self.total_space - self.available_space) as nat
    }
}

impl SnapshotModel {
    /// Whether every disk is well formed.
    pub open spec fn disks_wf(self) -> bool {
        forall|i: int| 0 <= i < self.disks.len() ==> (#[trigger] self.disks[i]).wf()
    }
}

} // verus!
