//! The report of one cycle, line by line.
//!
//! The lines come in a fixed order: the CPU, the core readings, the GPU
//! readings, memory, swap, the disks, and the network interfaces by name.
//! The line of a reading that overheats is wrapped in the ANSI sequences for
//! red and carries the word OVERHEAT.

use crate::binary32::Binary32;
use crate::decimal::{decimal_text, push_decimal};
use crate::memory::{memory_text, push_memory};
use crate::network::{name_before, sort_by_name, sorted_networks};
use crate::order::stable_sort_permutes;
use crate::sensor::{Classification, ClassificationModel, ReadingModel};
use crate::snapshot::{
    CpuModel, Disk, DiskModel, Memory, Network, NetworkModel, Snapshot, SnapshotModel, Swap,
};
use crate::threshold::{Evaluation, EvaluationModel, Status};
use vstd::prelude::*;
use vstd::string::*;

verus! {

/// What stands before the text of a line with the status `status`.
pub open spec fn mark_open(status: Status) -> Seq<char> {
    match status {
        Status::Overheat => "\x1b[31m"@,
        Status::Normal => Seq::empty(),
    }
}

/// What stands behind the text of a line with the status `status`.
pub open spec fn mark_close(status: Status) -> Seq<char> {
    match status {
        Status::Overheat => " OVERHEAT\x1b[0m"@,
        Status::Normal => Seq::empty(),
    }
}

/// The line that names the processor.
pub open spec fn cpu_line(brand: Seq<char>) -> Seq<char> {
    "CPU: "@ + brand
}

/// The line of the core reading at the position `index`: the usage of the
/// core in whole percent and the temperature with one decimal place.
pub open spec fn core_line(index: nat, usage: Binary32, temperature: Binary32, status: Status)
    -> Seq<char> {
    mark_open(status) + "Core "@ + decimal_text(index) + ": "@ + usage.display_text(0) + "% "@
        + temperature.display_text(1) + "\u{ba}C"@ + mark_close(status)
}

/// The line of the GPU reading at the position `index`: the label of the
/// sensor and the temperature with one decimal place.
pub open spec fn gpu_line(label: Seq<char>, index: nat, temperature: Binary32, status: Status)
    -> Seq<char> {
    mark_open(status) + label + " "@ + decimal_text(index) + ": "@ + temperature.display_text(1)
        + "\u{ba}C"@ + mark_close(status)
}

/// The memory line.
pub open spec fn memory_line(memory: Memory) -> Seq<char> {
    "RAM: Total:"@ + memory_text(memory.total as nat) + " Used:"@ + memory_text(
        memory.used as nat,
    ) + " Free:"@ + memory_text(memory.free as nat) + " Avaliable:"@ + memory_text(
        memory.available as nat,
    )
}

/// The swap line.
pub open spec fn swap_line(swap: Swap) -> Seq<char> {
    "SWAP: Total:"@ + memory_text(swap.total as nat) + " Used:"@ + memory_text(swap.used as nat)
        + " Free:"@ + memory_text(swap.free as nat)
}

/// The line of a disk: its total space, the space in use, which is the
/// total less the available space, and the available space.
pub open spec fn disk_line(disk: DiskModel) -> Seq<char> {
    "["@ + disk.name + "] Total: "@ + memory_text(disk.total_space) + " Used:"@ + memory_text(
        disk.used_space(),
    ) + " Free:"@ + memory_text(disk.available_space)
}

/// The line of a network interface.
pub open spec fn network_line(network: NetworkModel) -> Seq<char> {
    network.name + ": Received:"@ + memory_text(network.received) + " Transmited:"@ + memory_text(
        network.transmitted,
    ) + " Total Received: "@ + memory_text(network.total_received) + " Total Transmitted: "@
        + memory_text(network.total_transmitted)
}

/// The lines of the core readings. The reading at the position `i` is shown
/// with the usage of the CPU core at the position `i`.
pub open spec fn core_lines(
    cpus: Seq<CpuModel>,
    readings: Seq<ReadingModel>,
    statuses: Seq<Status>,
) -> Seq<Seq<char>> {
    Seq::new(
        readings.len(),
        |i: int| core_line(i as nat, cpus[i].usage, readings[i].temperature, statuses[i]),
    )
}

/// The lines of the GPU readings.
pub open spec fn gpu_lines(readings: Seq<ReadingModel>, statuses: Seq<Status>) -> Seq<Seq<char>> {
    Seq::new(
        readings.len(),
        |i: int| gpu_line(readings[i].label, i as nat, readings[i].temperature, statuses[i]),
    )
}

/// The lines of the disks, in the order of the disks.
pub open spec fn disk_lines(disks: Seq<DiskModel>) -> Seq<Seq<char>> {
    Seq::new(disks.len(), |i: int| disk_line(disks[i]))
}

/// The lines of the interfaces, in the order of the interfaces.
pub open spec fn network_lines(networks: Seq<NetworkModel>) -> Seq<Seq<char>> {
    Seq::new(networks.len(), |i: int| network_line(networks[i]))
}

/// Whether a report can be rendered: there is a CPU, no core reading is
/// without a CPU core to pair it with, every reading has its status, and
/// every disk is well formed.
pub open spec fn renderable(
    snapshot: SnapshotModel,
    classification: ClassificationModel,
    evaluation: EvaluationModel,
) -> bool {
    &&& snapshot.cpus.len() > 0
    &&& classification.core.len() <= snapshot.cpus.len()
    &&& evaluation.core.len() == classification.core.len()
    &&& evaluation.gpu.len() == classification.gpu.len()
    &&& snapshot.disks_wf()
}

/// The lines of the report of one cycle.
pub open spec fn report_lines(
    snapshot: SnapshotModel,
    classification: ClassificationModel,
    evaluation: EvaluationModel,
) -> Seq<Seq<char>> {
    seq![cpu_line(snapshot.cpus[0].brand)] + core_lines(
        snapshot.cpus,
        classification.core,
        evaluation.core,
    ) + gpu_lines(classification.gpu, evaluation.gpu) + seq![
        memory_line(snapshot.memory),
        swap_line(snapshot.swap),
    ] + disk_lines(snapshot.disks) + network_lines(sorted_networks(snapshot.networks))
}

/// Rendering is a function of what the snapshot, the classification and the
/// evaluation hold: two renderings of inputs with the same models are equal
/// line for line, character for character.
pub proof fn render_is_deterministic(
    first: (Snapshot, Classification, Evaluation),
    second: (Snapshot, Classification, Evaluation),
    first_lines: Vec<String>,
    second_lines: Vec<String>,
)
    requires
        first.0@ == second.0@,
        first.1@ == second.1@,
        first.2@ == second.2@,
        first_lines.deep_view() == report_lines(first.0@, first.1@, first.2@),
        second_lines.deep_view() == report_lines(second.0@, second.1@, second.2@),
    ensures
        first_lines.deep_view() == second_lines.deep_view(),
{
}

/// The report has one line for the CPU, one for each reading, one for
/// memory, one for swap, one for each disk and one for each interface.
pub proof fn report_line_count(
    snapshot: SnapshotModel,
    classification: ClassificationModel,
    evaluation: EvaluationModel,
)
    ensures
        report_lines(snapshot, classification, evaluation).len() == 3 + classification.core.len()
            + classification.gpu.len() + snapshot.disks.len() + snapshot.networks.len(),
{
    stable_sort_permutes(snapshot.networks, name_before());
}

/// A new line that begins with what `status` puts before the text.
fn open_line(status: Status) -> (text: String)
    ensures
        text@ == mark_open(status),
{
    let mut text = String::new();
    match status {
        Status::Overheat => {
            text.append("\x1b[31m");
        },
        Status::Normal => {},
    }
    assert(text@ =~= mark_open(status));
    text
}

/// Ends a line with what `status` puts behind the text.
fn close_line(text: &mut String, status: Status)
    ensures
        final(text)@ == old(text)@ + mark_close(status),
{
    match status {
        Status::Overheat => {
            text.append(" OVERHEAT\x1b[0m");
        },
        Status::Normal => {},
    }
    assert(text@ =~= old(text)@ + mark_close(status));
}

/// Renders the line that names the processor.
pub fn render_cpu_line(brand: &str) -> (text: String)
    ensures
        text@ == cpu_line(brand@),
{
    let mut text = String::new();
    text.append("CPU: ");
    text.append(brand);
    assert(text@ =~= cpu_line(brand@));
    text
}

/// Renders the line of a core reading.
pub fn render_core_line(index: usize, usage: Binary32, temperature: Binary32, status: Status)
    -> (text: String)
    ensures
        text@ == core_line(index as nat, usage, temperature, status),
{
    let mut text = open_line(status);
    text.append("Core ");
    push_decimal(&mut text, index as u128);
    text.append(": ");
    usage.push_display(&mut text, 0);
    text.append("% ");
    temperature.push_display(&mut text, 1);
    text.append("\u{ba}C");
    close_line(&mut text, status);
    assert(text@ =~= core_line(index as nat, usage, temperature, status));
    text
}

/// Renders the line of a GPU reading.
pub fn render_gpu_line(label: &str, index: usize, temperature: Binary32, status: Status) -> (text:
    String)
    ensures
        text@ == gpu_line(label@, index as nat, temperature, status),
{
    let mut text = open_line(status);
    text.append(label);
    text.append(" ");
    push_decimal(&mut text, index as u128);
    text.append(": ");
    temperature.push_display(&mut text, 1);
    text.append("\u{ba}C");
    close_line(&mut text, status);
    assert(text@ =~= gpu_line(label@, index as nat, temperature, status));
    text
}

/// Renders the memory line.
pub fn render_memory_line(memory: &Memory) -> (text: String)
    ensures
        text@ == memory_line(*memory),
{
    let mut text = String::new();
    text.append("RAM: Total:");
    push_memory(&mut text, memory.total);
    text.append(" Used:");
    push_memory(&mut text, memory.used);
    text.append(" Free:");
    push_memory(&mut text, memory.free);
    text.append(" Avaliable:");
    push_memory(&mut text, memory.available);
    assert(text@ =~= memory_line(*memory));
    text
}

/// Renders the swap line.
pub fn render_swap_line(swap: &Swap) -> (text: String)
    ensures
        text@ == swap_line(*swap),
{
    let mut text = String::new();
    text.append("SWAP: Total:");
    push_memory(&mut text, swap.total);
    text.append(" Used:");
    push_memory(&mut text, swap.used);
    text.append(" Free:");
    push_memory(&mut text, swap.free);
    assert(text@ =~= swap_line(*swap));
    text
}

/// Renders the line of a disk.
pub fn render_disk_line(disk: &Disk) -> (text: String)
    requires
        disk@.wf(),
    ensures
        text@ == disk_line(disk@),
{
    let mut text = String::new();
    text.append("[");
    text.append(disk.name.as_str());
    text.append("] Total: ");
    push_memory(&mut text, disk.total_space);
    text.append(" Used:");
    push_memory(&mut text, disk.total_space - disk.available_space);
    text.append(" Free:");
    push_memory(&mut text, disk.available_space);
    assert(text@ =~= disk_line(disk@));
    text
}

/// Renders the line of a network interface.
pub fn render_network_line(network: &Network) -> (text: String)
    ensures
        text@ == network_line(network@),
{
    let mut text = String::new();
    text.append(network.name.as_str());
    text.append(": Received:");
    push_memory(&mut text, network.received);
    text.append(" Transmited:");
    push_memory(&mut text, network.transmitted);
    text.append(" Total Received: ");
    push_memory(&mut text, network.total_received);
    text.append(" Total Transmitted: ");
    push_memory(&mut text, network.total_transmitted);
    assert(text@ =~= network_line(network@));
    text
}

/// A copy of the interfaces, in their order.
fn copy_networks(networks: &Vec<Network>) -> (copy: Vec<Network>)
    ensures
        copy.deep_view() == networks.deep_view(),
{
    let mut copy: Vec<Network> = Vec::new();
    let mut i: usize = 0;
    while i < networks.len()
        invariant
            i <= networks.len(),
            copy.deep_view() == networks.deep_view().subrange(0, i as int),
        decreases networks.len() - i,
    {
        let network = &networks[i];
        let ghost before = copy.deep_view();
        copy.push(
            Network {
                name: network.name.clone(),
                received: network.received,
                transmitted: network.transmitted,
                total_received: network.total_received,
                total_transmitted: network.total_transmitted,
            },
        );
        assert(copy.deep_view() =~= before.push(network@));
        assert(networks.deep_view().subrange(0, i + 1) =~= before.push(network@));
        i = i + 1;
    }
    assert(networks.deep_view().subrange(0, i as int) =~= networks.deep_view());
    copy
}

/// Renders the report of one cycle.
pub fn render(snapshot: &Snapshot, classification: &Classification, evaluation: &Evaluation) -> (lines:
    Vec<String>)
    requires
        renderable(snapshot@, classification@, evaluation@),
    ensures
        lines.deep_view() == report_lines(snapshot@, classification@, evaluation@),
{
    let ghost s = snapshot@;
    let ghost c = classification@;
    let ghost e = evaluation@;
    let mut lines: Vec<String> = Vec::new();
    lines.push(render_cpu_line(snapshot.cpus[0].brand.as_str()));
    assert(lines.deep_view() =~= seq![cpu_line(s.cpus[0].brand)]);
    let ghost head = lines.deep_view();

    let mut i: usize = 0;
    while i < classification.core.len()
        invariant
            i <= classification.core.len(),
            s == snapshot@,
            c == classification@,
            e == evaluation@,
            renderable(s, c, e),
            lines.deep_view() == head + core_lines(s.cpus, c.core, e.core).subrange(0, i as int),
        decreases classification.core.len() - i,
    {
        let reading = &classification.core[i];
        let ghost before = lines.deep_view();
        let line = render_core_line(
            i,
            snapshot.cpus[i].usage,
            reading.temperature,
            evaluation.core[i],
        );
        lines.push(line);
        proof {
            let all = core_lines(s.cpus, c.core, e.core);
            assert(s.cpus[i as int] == snapshot.cpus@[i as int]@);
            assert(c.core[i as int] == classification.core@[i as int]@);
            assert(line@ == all[i as int]);
            assert(lines.deep_view() =~= before.push(line@));
            assert(all.subrange(0, i + 1) =~= all.subrange(0, i as int).push(all[i as int]));
            assert(lines.deep_view() =~= head + all.subrange(0, i + 1));
        }
        i = i + 1;
    }
    assert(core_lines(s.cpus, c.core, e.core).subrange(0, i as int) =~= core_lines(
        s.cpus,
        c.core,
        e.core,
    ));
    let ghost head = lines.deep_view();

    let mut i: usize = 0;
    while i < classification.gpu.len()
        invariant
            i <= classification.gpu.len(),
            c == classification@,
            e == evaluation@,
            e.gpu.len() == c.gpu.len(),
            lines.deep_view() == head + gpu_lines(c.gpu, e.gpu).subrange(0, i as int),
        decreases classification.gpu.len() - i,
    {
        let reading = &classification.gpu[i];
        let ghost before = lines.deep_view();
        let line = render_gpu_line(
            reading.label.as_str(),
            i,
            reading.temperature,
            evaluation.gpu[i],
        );
        lines.push(line);
        proof {
            let all = gpu_lines(c.gpu, e.gpu);
            assert(c.gpu[i as int] == classification.gpu@[i as int]@);
            assert(line@ == all[i as int]);
            assert(lines.deep_view() =~= before.push(line@));
            assert(all.subrange(0, i + 1) =~= all.subrange(0, i as int).push(all[i as int]));
            assert(lines.deep_view() =~= head + all.subrange(0, i + 1));
        }
        i = i + 1;
    }
    assert(gpu_lines(c.gpu, e.gpu).subrange(0, i as int) =~= gpu_lines(c.gpu, e.gpu));
    let ghost head = lines.deep_view();

    lines.push(render_memory_line(&snapshot.memory));
    lines.push(render_swap_line(&snapshot.swap));
    assert(lines.deep_view() =~= head + seq![memory_line(s.memory), swap_line(s.swap)]);
    let ghost head = lines.deep_view();

    let mut i: usize = 0;
    while i < snapshot.disks.len()
        invariant
            i <= snapshot.disks.len(),
            s == snapshot@,
            s.disks_wf(),
            lines.deep_view() == head + disk_lines(s.disks).subrange(0, i as int),
        decreases snapshot.disks.len() - i,
    {
        let disk = &snapshot.disks[i];
        let ghost before = lines.deep_view();
        proof {
            assert(s.disks[i as int] == disk@);
            assert(s.disks[i as int].wf());
        }
        let line = render_disk_line(disk);
        lines.push(line);
        proof {
            let all = disk_lines(s.disks);
            assert(line@ == all[i as int]);
            assert(lines.deep_view() =~= before.push(line@));
            assert(all.subrange(0, i + 1) =~= all.subrange(0, i as int).push(all[i as int]));
            assert(lines.deep_view() =~= head + all.subrange(0, i + 1));
        }
        i = i + 1;
    }
    assert(disk_lines(s.disks).subrange(0, i as int) =~= disk_lines(s.disks));
    let ghost head = lines.deep_view();

    let networks = sort_by_name(copy_networks(&snapshot.networks));
    let ghost n = networks.deep_view();
    assert(n == sorted_networks(s.networks));
    let mut i: usize = 0;
    while i < networks.len()
        invariant
            i <= networks.len(),
            n == networks.deep_view(),
            lines.deep_view() == head + network_lines(n).subrange(0, i as int),
        decreases networks.len() - i,
    {
        let network = &networks[i];
        let ghost before = lines.deep_view();
        let line = render_network_line(network);
        lines.push(line);
        proof {
            let all = network_lines(n);
            assert(n[i as int] == network@);
            assert(line@ == all[i as int]);
            assert(lines.deep_view() =~= before.push(line@));
            assert(all.subrange(0, i + 1) =~= all.subrange(0, i as int).push(all[i as int]));
            assert(lines.deep_view() =~= head + all.subrange(0, i + 1));
        }
        i = i + 1;
    }
    assert(network_lines(n).subrange(0, i as int) =~= network_lines(n));
    assert(lines.deep_view() =~= report_lines(s, c, e));
    lines
}

} // verus!
