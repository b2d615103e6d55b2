//! One pass of the monitor: classify the sensors of a snapshot, judge the
//! readings, render the report, and plan the alert where a reading
//! overheats.

use crate::alert::{alert_of, plan_alert, AlertPlan, AlertPlanModel, PULSE_COUNT};
use crate::render::{render, renderable, report_lines};
use crate::sensor::{classification_of, classify};
use crate::snapshot::{Disk, Snapshot, SnapshotModel};
use crate::threshold::{any_overheated, evaluate, evaluation_of, status_of, Status, CEILING};
use vstd::prelude::*;

verus! {

/// The pause between two cycles, in milliseconds.
pub const CYCLE_INTERVAL: u64 = 1000;

/// Why a snapshot has no report.
#[derive(Clone, Copy, Debug, PartialEq, Eq, Structural)]
pub enum CycleError {
    /// The snapshot lists no CPU core.
    NoCpu,
    /// There are more core readings than CPU cores to pair them with.
    SensorCpuMismatch,
    /// A disk has more space available than it has in total.
    DiskAccounting,
}

impl CycleError {
    /// What the error says, in words.
    pub open spec fn message_text(self) -> Seq<char> {
        match self {
            CycleError::NoCpu => "the snapshot lists no CPU core"@,
            CycleError::SensorCpuMismatch => "more core temperature readings than CPU cores"@,
            CycleError::DiskAccounting => "a disk has more space available than in total"@,
        }
    }

    /// What the error says, in words.
    pub fn message(&self) -> (text: &'static str)
        ensures
            text@ == self.message_text(),
    {
        match self {
            CycleError::NoCpu => "the snapshot lists no CPU core",
            CycleError::SensorCpuMismatch => "more core temperature readings than CPU cores",
            CycleError::DiskAccounting => "a disk has more space available than in total",
        }
    }
}

/// What one cycle emits: the lines of the report and, where a reading
/// overheats, the alert.
#[derive(Clone, Debug)]
pub struct CycleReport {
    pub lines: Vec<String>,
    pub alert: Option<AlertPlan>,
}

/// The model of a `CycleReport`.
pub struct CycleReportModel {
    pub lines: Seq<Seq<char>>,
    pub alert: Option<AlertPlanModel>,
}

impl View for CycleReport {
    type V = CycleReportModel;

    open spec fn view(&self) -> CycleReportModel {
        CycleReportModel { lines: self.lines.deep_view(), alert: self.alert.deep_view() }
    }
}

/// What a cycle makes of a snapshot. The errors are tried in the order in
/// which the report meets them: the CPU line, the core lines, the disk
/// lines.
pub open spec fn cycle_of(snapshot: SnapshotModel) -> Result<CycleReportModel, CycleError> {
    let classification = classification_of(snapshot.sensors);
    let evaluation = evaluation_of(classification);
    if snapshot.cpus.len() == 0 {
        Err(CycleError::NoCpu)
    } else if classification.core.len() > snapshot.cpus.len() {
        Err(CycleError::SensorCpuMismatch)
    } else if !snapshot.disks_wf() {
        Err(CycleError::DiskAccounting)
    } else {
        Ok(
            CycleReportModel {
                lines: report_lines(snapshot, classification, evaluation),
                alert: if evaluation.any_overheat {
                    Some(alert_of(PULSE_COUNT as nat))
                } else {
                    None
                },
            },
        )
    }
}

/// A cycle plans an alert exactly where a reading of either group is above
/// the ceiling; a cycle without such a reading plans none.
pub proof fn alert_only_on_overheat(snapshot: SnapshotModel)
    requires
        cycle_of(snapshot) is Ok,
    ensures
        cycle_of(snapshot)->Ok_0.alert is Some <==> (exists|i: int|
            0 <= i < classification_of(snapshot.sensors).core.len() && (
            #[trigger] classification_of(snapshot.sensors).core[i]).temperature.is_above(
                CEILING as nat,
            )) || (exists|i: int|
            0 <= i < classification_of(snapshot.sensors).gpu.len() && (
            #[trigger] classification_of(snapshot.sensors).gpu[i]).temperature.is_above(
                CEILING as nat,
            )),
        cycle_of(snapshot)->Ok_0.alert is Some ==> cycle_of(snapshot)->Ok_0.alert
            == Some(alert_of(PULSE_COUNT as nat)),
{
    let classification = classification_of(snapshot.sensors);
    let core = classification.core;
    let gpu = classification.gpu;
    if any_overheated(core) {
        let i = choose|i: int|
            0 <= i < core.len() && status_of(#[trigger] core[i].temperature) == Status::Overheat;
        assert(core[i].temperature.is_above(CEILING as nat));
    }
    if any_overheated(gpu) {
        let i = choose|i: int|
            0 <= i < gpu.len() && status_of(#[trigger] gpu[i].temperature) == Status::Overheat;
        assert(gpu[i].temperature.is_above(CEILING as nat));
    }
    if exists|i: int| 0 <= i < core.len() && (#[trigger] core[i]).temperature.is_above(CEILING as nat) {
        let i = choose|i: int|
            0 <= i < core.len() && (#[trigger] core[i]).temperature.is_above(CEILING as nat);
        assert(status_of(core[i].temperature) == Status::Overheat);
    }
    if exists|i: int| 0 <= i < gpu.len() && (#[trigger] gpu[i]).temperature.is_above(CEILING as nat) {
        let i = choose|i: int|
            0 <= i < gpu.len() && (#[trigger] gpu[i]).temperature.is_above(CEILING as nat);
        assert(status_of(gpu[i].temperature) == Status::Overheat);
    }
}

/// A cycle is a function of what the snapshot holds: two snapshots with one
/// model have the same report, line for line, and the same alert.
pub proof fn cycle_is_deterministic(
    first: Snapshot,
    second: Snapshot,
    first_report: CycleReport,
    second_report: CycleReport,
)
    requires
        first@ == second@,
        cycle_of(first@) == Ok::<CycleReportModel, CycleError>(first_report@),
        cycle_of(second@) == Ok::<CycleReportModel, CycleError>(second_report@),
    ensures
        first_report.lines.deep_view() == second_report.lines.deep_view(),
        first_report@ == second_report@,
{
}

/// Whether no disk has more space available than it has in total.
pub fn disks_well_formed(disks: &Vec<Disk>) -> (ok: bool)
    ensures
        ok == (forall|i: int| 0 <= i < disks.len() ==> (#[trigger] disks.deep_view()[i]).wf()),
{
    let mut i: usize = 0;
    while i < disks.len()
        invariant
            i <= disks.len(),
            forall|j: int| 0 <= j < i ==> (#[trigger] disks.deep_view()[j]).wf(),
        decreases disks.len() - i,
    {
        if disks[i].available_space > disks[i].total_space {
            assert(!disks.deep_view()[i as int].wf());
            return false;
        }
        i = i + 1;
    }
    true
}

/// Runs one cycle on a snapshot.
pub fn run_cycle(snapshot: &Snapshot) -> (result: Result<CycleReport, CycleError>)
    ensures
        match result {
            Ok(report) => cycle_of(snapshot@) == Ok::<CycleReportModel, CycleError>(report@),
            Err(error) => cycle_of(snapshot@) == Err::<CycleReportModel, CycleError>(error),
        },
{
    let classification = classify(&snapshot.sensors);
    let evaluation = evaluate(&classification);
    if snapshot.cpus.len() == 0 {
        return Err(CycleError::NoCpu);
    }
    if classification.core.len() > snapshot.cpus.len() {
        return Err(CycleError::SensorCpuMismatch);
    }
    if !disks_well_formed(&snapshot.disks) {
        return Err(CycleError::DiskAccounting);
    }
    assert(renderable(snapshot@, classification@, evaluation@));
    let lines = render(snapshot, &classification, &evaluation);
    let alert = if evaluation.any_overheat {
        Some(plan_alert(PULSE_COUNT))
    } else {
        None
    };
    Ok(CycleReport { lines, alert })
}

} // verus!
