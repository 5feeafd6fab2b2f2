//! Memory that processes and devices use.
use vstd::prelude::*;

verus! {

pub const BYTES_PER_MIB: u64 = 1_048_576;

/// The memory of one GPU.
#[derive(Debug, Clone, Copy, PartialEq, Eq, Structural)]
pub struct GpuDeviceMemory {
    pub index: u32,
    pub used_mb: u64,
    pub free_mb: u64,
    pub total_mb: u64,
}

/// The memory of all GPUs.
#[derive(Debug, Clone, PartialEq, Eq)]
pub struct GpuMemorySnapshot {
    pub used_mb: u64,
    pub free_mb: u64,
    pub total_mb: u64,
    pub devices: Vec<GpuDeviceMemory>,
}

/// Whole MiB in some bytes.
pub fn bytes_to_mib_floor(bytes: u64) -> (r: u64)
    ensures
        r == bytes as int / 1_048_576,
{
    bytes / BYTES_PER_MIB
}

/// The MiB that some bytes need.
pub fn bytes_to_mib_ceil(bytes: u64) -> (r: u64)
    ensures
        r == (bytes + 1_048_575) / 1_048_576,
{
    let whole: u64 = bytes / BYTES_PER_MIB;
    if bytes % BYTES_PER_MIB == 0 {
        whole
    } else {
        whole + 1
    }
}

/// KiB as the system counts them, in whole MiB.
pub fn kib_to_mib(kib: u64) -> (r: u64)
    ensures
        r == kib as int / 1024,
{
    kib / 1024
}

/// What is rounded down is not above what is rounded up, and less than one MiB below it.
pub proof fn law_mib_rounding(bytes: u64)
    ensures
        (bytes as int / 1_048_576) * 1_048_576 <= bytes,
        bytes <= ((bytes + 1_048_575) / 1_048_576) * 1_048_576,
        0 <= (bytes + 1_048_575) / 1_048_576 - bytes as int / 1_048_576 <= 1,
{
}

/// A process on a GPU, and the bytes that it uses, where they are known.
#[derive(Debug, Clone, Copy, PartialEq, Eq, Structural)]
pub struct ProcessMemory {
    pub pid: u32,
    pub used: Option<u64>,
}

/// The larger of a known number and one that may be unknown.
pub open spec fn at_least(best: Option<u64>, used: u64) -> Option<u64> {
    match best {
        Some(b) => if b >= used {
            Some(b)
        } else {
            Some(used)
        },
        None => Some(used),
    }
}

/// The most that a process uses by any of some entries, beginning with what is known.
pub open spec fn most_used(
    pid: u32,
    processes: Seq<ProcessMemory>,
    best: Option<u64>,
) -> Option<u64>
    decreases processes.len(),
{
    if processes.len() == 0 {
        best
    } else {
        let rest = most_used(pid, processes.drop_last(), best);
        let p = processes.last();
        if p.pid == pid && p.used is Some {
            at_least(rest, p.used->0)
        } else {
            rest
        }
    }
}

/// The most that a process uses by any of some entries. A process is listed more than once where
/// it both computes and draws; its memory counts once.
pub fn record_process_memory(
    target_pid: u32,
    processes: &Vec<ProcessMemory>,
    best: Option<u64>,
) -> (r: Option<u64>)
    ensures
        r == most_used(target_pid, processes@, best),
{
    let mut most: Option<u64> = best;
    let mut i: usize = 0;
    assert(processes@.take(0) =~= Seq::<ProcessMemory>::empty());
    while i < processes.len()
        invariant
            i <= processes@.len(),
            most == most_used(target_pid, processes@.take(i as int), best),
        decreases processes@.len() - i,
    {
        let p = processes[i];
        proof {
            assert(processes@.take(i + 1).drop_last() =~= processes@.take(i as int));
            assert(processes@.take(i + 1).last() == p);
        }
        if p.pid == target_pid {
            if let Some(used) = p.used {
                most =
                match most {
                    Some(b) => if b >= used {
                        Some(b)
                    } else {
                        Some(used)
                    },
                    None => Some(used),
                };
            }
        }
        i = i + 1;
    }
    assert(processes@.take(i as int) =~= processes@);
    most
}

/// The processes on one GPU.
#[derive(Debug, Clone)]
pub struct DeviceProcesses {
    pub compute: Vec<ProcessMemory>,
    pub graphics: Vec<ProcessMemory>,
}

/// The bytes that a process uses on one GPU.
pub open spec fn used_on(pid: u32, d: DeviceProcesses) -> nat {
    match most_used(pid, d.graphics@, most_used(pid, d.compute@, None)) {
        Some(n) => n as nat,
        None => 0,
    }
}

/// The bytes that a process uses on all GPUs.
pub open spec fn used_on_all(pid: u32, devices: Seq<DeviceProcesses>) -> nat
    decreases devices.len(),
{
    if devices.len() == 0 {
        0
    } else {
        used_on_all(pid, devices.drop_last()) + used_on(pid, devices.last())
    }
}

proof fn lemma_used_grows(pid: u32, devices: Seq<DeviceProcesses>, i: int)
    requires
        0 <= i <= devices.len(),
    ensures
        used_on_all(pid, devices.take(i)) <= used_on_all(pid, devices),
    decreases devices.len() - i,
{
    if i == devices.len() {
        assert(devices.take(i) =~= devices);
    } else {
        assert(devices.take(i + 1).drop_last() =~= devices.take(i));
        lemma_used_grows(pid, devices, i + 1);
    }
}

/// The VRAM of a process in MiB, over all GPUs; nothing where it uses none.
pub fn process_vram(pid: u32, devices: &Vec<DeviceProcesses>) -> (r: Option<u64>)
    requires
        used_on_all(pid, devices@) <= u64::MAX,
    ensures
        r == if used_on_all(pid, devices@) > 0 {
            Some(((used_on_all(pid, devices@) + 1_048_575) / 1_048_576) as u64)
        } else {
            None
        },
{
    let mut total: u64 = 0;
    let mut i: usize = 0;
    assert(devices@.take(0) =~= Seq::<DeviceProcesses>::empty());
    while i < devices.len()
        invariant
            i <= devices@.len(),
            used_on_all(pid, devices@) <= u64::MAX,
            total == used_on_all(pid, devices@.take(i as int)),
        decreases devices@.len() - i,
    {
        let d = &devices[i];
        let most = record_process_memory(
            pid,
            &d.graphics,
            record_process_memory(pid, &d.compute, None),
        );
        proof {
            assert(devices@.take(i + 1).drop_last() =~= devices@.take(i as int));
            assert(devices@.take(i + 1).last() == *d);
            lemma_used_grows(pid, devices@, i + 1);
        }
        if let Some(n) = most {
            total = total + n;
        }
        i = i + 1;
    }
    assert(devices@.take(i as int) =~= devices@);
    if total > 0 {
        Some(bytes_to_mib_ceil(total))
    } else {
        None
    }
}

/// The memory of one GPU in bytes.
#[derive(Debug, Clone, Copy, PartialEq, Eq, Structural)]
pub struct DeviceReading {
    pub index: u32,
    pub used: u64,
    pub free: u64,
    pub total: u64,
}

/// The memory of one GPU in MiB. What is used is rounded up, what is free or there is rounded
/// down, so that there is never less room than it seems.
pub open spec fn device_memory(d: DeviceReading) -> GpuDeviceMemory {
    GpuDeviceMemory {
        index: d.index,
        used_mb: ((d.used + 1_048_575) / 1_048_576) as u64,
        free_mb: (d.free as int / 1_048_576) as u64,
        total_mb: (d.total as int / 1_048_576) as u64,
    }
}

/// The MiB in use on some GPUs.
pub open spec fn total_used(d: Seq<GpuDeviceMemory>) -> nat
    decreases d.len(),
{
    if d.len() == 0 {
        0
    } else {
        total_used(d.drop_last()) + d.last().used_mb as nat
    }
}

/// The MiB that are free on some GPUs.
pub open spec fn total_free(d: Seq<GpuDeviceMemory>) -> nat
    decreases d.len(),
{
    if d.len() == 0 {
        0
    } else {
        total_free(d.drop_last()) + d.last().free_mb as nat
    }
}

/// The MiB that some GPUs have.
pub open spec fn total_there(d: Seq<GpuDeviceMemory>) -> nat
    decreases d.len(),
{
    if d.len() == 0 {
        0
    } else {
        total_there(d.drop_last()) + d.last().total_mb as nat
    }
}

/// The memory of some GPUs in MiB.
pub open spec fn devices_memory(readings: Seq<DeviceReading>) -> Seq<GpuDeviceMemory> {
    readings.map_values(|d: DeviceReading| device_memory(d))
}

proof fn lemma_totals_grow(d: Seq<GpuDeviceMemory>, i: int)
    requires
        0 <= i <= d.len(),
    ensures
        total_used(d.take(i)) <= total_used(d),
        total_free(d.take(i)) <= total_free(d),
        total_there(d.take(i)) <= total_there(d),
    decreases d.len() - i,
{
    if i == d.len() {
        assert(d.take(i) =~= d);
    } else {
        assert(d.take(i + 1).drop_last() =~= d.take(i));
        lemma_totals_grow(d, i + 1);
    }
}

/// The memory of all GPUs that could be read; nothing where there are none.
pub fn summarize_devices(readings: &Vec<DeviceReading>) -> (r: Option<GpuMemorySnapshot>)
    requires
        total_used(devices_memory(readings@)) <= u64::MAX,
        total_free(devices_memory(readings@)) <= u64::MAX,
        total_there(devices_memory(readings@)) <= u64::MAX,
    ensures
        match r {
            Some(s) => readings@.len() > 0 && s.devices@ == devices_memory(readings@) && s.used_mb
                == total_used(s.devices@) && s.free_mb == total_free(s.devices@) && s.total_mb
                == total_there(s.devices@),
            None => readings@.len() == 0,
        },
{
    if readings.len() == 0 {
        return None;
    }
    let ghost all = devices_memory(readings@);
    let mut devices: Vec<GpuDeviceMemory> = Vec::new();
    let mut used_mb: u64 = 0;
    let mut free_mb: u64 = 0;
    let mut total_mb: u64 = 0;
    let mut i: usize = 0;
    assert(all.take(0) =~= Seq::<GpuDeviceMemory>::empty());
    while i < readings.len()
        invariant
            i <= readings@.len(),
            all == devices_memory(readings@),
            total_used(all) <= u64::MAX,
            total_free(all) <= u64::MAX,
            total_there(all) <= u64::MAX,
            devices@ == all.take(i as int),
            used_mb == total_used(all.take(i as int)),
            free_mb == total_free(all.take(i as int)),
            total_mb == total_there(all.take(i as int)),
        decreases readings@.len() - i,
    {
        let d = readings[i];
        let m = GpuDeviceMemory {
            index: d.index,
            used_mb: bytes_to_mib_ceil(d.used),
            free_mb: bytes_to_mib_floor(d.free),
            total_mb: bytes_to_mib_floor(d.total),
        };
        proof {
            assert(m == all[i as int]);
            assert(all.take(i + 1).drop_last() =~= all.take(i as int));
            assert(all.take(i + 1).last() == m);
            lemma_totals_grow(all, i + 1);
        }
        used_mb = used_mb + m.used_mb;
        free_mb = free_mb + m.free_mb;
        total_mb = total_mb + m.total_mb;
        devices.push(m);
        assert(devices@ =~= all.take(i + 1));
        i = i + 1;
    }
    assert(all.take(i as int) =~= all);
    Some(GpuMemorySnapshot { used_mb, free_mb, total_mb, devices })
}

/// VRAM and system memory of a process in MiB, with 0 for what is not known.
pub fn sample(vram: Option<u64>, sysmem: Option<u64>) -> (r: (u64, u64))
    ensures
        r.0 == match vram {
            Some(n) => n,
            None => 0,
        },
        r.1 == match sysmem {
            Some(n) => n,
            None => 0,
        },
{
    (vram.unwrap_or(0), sysmem.unwrap_or(0))
}

/// What a process uses by some entries is known if one of its entries knows it, or it was known
/// before; it is the most that any of them says, never their sum.
pub proof fn law_most_used(pid: u32, processes: Seq<ProcessMemory>, best: Option<u64>)
    ensures
        most_used(pid, processes, best) is None <==> best is None && forall|i: int|
            0 <= i < processes.len() && (#[trigger] processes[i]).pid == pid
                ==> processes[i].used is None,
        best is Some ==> most_used(pid, processes, best) is Some && most_used(
            pid,
            processes,
            best,
        )->0 >= best->0,
        forall|i: int|
            0 <= i < processes.len() && (#[trigger] processes[i]).pid == pid
                && processes[i].used is Some ==> most_used(pid, processes, best)->0
                >= processes[i].used->0,
        most_used(pid, processes, best) is Some ==> most_used(pid, processes, best) == best
            || exists|i: int|
            0 <= i < processes.len() && (#[trigger] processes[i]).pid == pid && processes[i].used
                == most_used(pid, processes, best),
    decreases processes.len(),
{
    if processes.len() > 0 {
        let before = processes.drop_last();
        law_most_used(pid, before, best);
        assert forall|i: int| 0 <= i < before.len() implies #[trigger] before[i] == processes[i] by {}
        let p = processes[processes.len() - 1];
        let rest = most_used(pid, before, best);
        let all = most_used(pid, processes, best);
        assert forall|i: int|
            0 <= i < processes.len() && (#[trigger] processes[i]).pid == pid
                && processes[i].used is Some implies all->0 >= processes[i].used->0 && all is Some by {
            if i < before.len() {
                assert(before[i] == processes[i]);
            }
        }
        if all is Some && all != best {
            if all == rest {
                let i = choose|i: int|
                    0 <= i < before.len() && (#[trigger] before[i]).pid == pid && before[i].used
                        == rest;
                assert(processes[i].used == all);
            } else {
                assert(processes[processes.len() - 1].used == all);
            }
        }
        if all is None {
            assert forall|i: int|
                0 <= i < processes.len() && (#[trigger] processes[i]).pid
                    == pid implies processes[i].used is None by {
                if i < before.len() {
                    assert(before[i] == processes[i]);
                }
            }
        } else if best is None {
            let i = choose|i: int|
                0 <= i < processes.len() && (#[trigger] processes[i]).pid == pid && processes[i].used
                    == all;
            assert(processes[i].used is Some);
        }
    }
}

/// On one GPU a process uses the most that any entry says, whether it computes or draws; on several
/// it uses the sum.
pub proof fn law_used_over_devices(
    pid: u32,
    devices: Seq<DeviceProcesses>,
    d: DeviceProcesses,
    compute: u64,
    graphics: u64,
)
    ensures
        used_on_all(pid, Seq::empty()) == 0,
        used_on_all(pid, devices.push(d)) == used_on_all(pid, devices) + used_on(pid, d),
        d.compute@ == seq![ProcessMemory { pid, used: Some(compute) }] && d.graphics@
            == seq![ProcessMemory { pid, used: Some(graphics) }] ==> used_on(pid, d) == if compute
            >= graphics {
            compute
        } else {
            graphics
        },
        d.compute@.len() == 0 && d.graphics@.len() == 0 ==> used_on(pid, d) == 0,
{
    assert(devices.push(d).drop_last() =~= devices);
    reveal_with_fuel(most_used, 2);
}

/// What a GPU has in use is rounded up to MiB, what is free and what is there down, and each figure
/// stays with its GPU.
pub proof fn law_device_rounding(r: DeviceReading)
    ensures
        ({
            let d = device_memory(r);
            &&& d.index == r.index
            &&& d.used_mb * 1_048_576 >= r.used && (d.used_mb - 1) * 1_048_576 < r.used
            &&& d.free_mb * 1_048_576 <= r.free && (d.free_mb + 1) * 1_048_576 > r.free
            &&& d.total_mb * 1_048_576 <= r.total && (d.total_mb + 1) * 1_048_576 > r.total
        }),
{
}

/// The totals of some GPUs are the sums of their figures.
pub proof fn law_totals_add_up(d: Seq<GpuDeviceMemory>, one: GpuDeviceMemory)
    ensures
        total_used(Seq::empty()) == 0 && total_free(Seq::empty()) == 0 && total_there(Seq::empty())
            == 0,
        total_used(d.push(one)) == total_used(d) + one.used_mb,
        total_free(d.push(one)) == total_free(d) + one.free_mb,
        total_there(d.push(one)) == total_there(d) + one.total_mb,
{
    assert(d.push(one).drop_last() =~= d);
}

/// Each GPU that could be read is listed, in the order of the readings.
pub proof fn law_devices_listed(readings: Seq<DeviceReading>, i: int)
    requires
        0 <= i < readings.len(),
    ensures
        devices_memory(readings).len() == readings.len(),
        devices_memory(readings)[i].index == readings[i].index,
        devices_memory(readings)[i] == device_memory(readings[i]),
{
}

} // verus!
