//! Memory readings and their units.

use llamesh::memory_sampler::{
    bytes_to_mib_ceil, bytes_to_mib_floor, kib_to_mib, process_vram, record_process_memory, sample,
    summarize_devices, DeviceProcesses, DeviceReading, GpuDeviceMemory, ProcessMemory,
    BYTES_PER_MIB,
};

#[test]
fn test_mib_conversion_rounding() {
    assert_eq!(bytes_to_mib_floor(0), 0);
    assert_eq!(bytes_to_mib_floor(BYTES_PER_MIB - 1), 0);
    assert_eq!(bytes_to_mib_floor(BYTES_PER_MIB), 1);
    assert_eq!(bytes_to_mib_ceil(0), 0);
    assert_eq!(bytes_to_mib_ceil(1), 1);
    assert_eq!(bytes_to_mib_ceil(BYTES_PER_MIB), 1);
    assert_eq!(bytes_to_mib_ceil(BYTES_PER_MIB + 1), 2);
}

#[test]
fn the_largest_reading_rounds_without_overflow() {
    assert_eq!(bytes_to_mib_floor(u64::MAX), 17_592_186_044_415);
    assert_eq!(bytes_to_mib_ceil(u64::MAX), 17_592_186_044_416);
    assert_eq!(kib_to_mib(2_047), 1);
    assert_eq!(kib_to_mib(2_048), 2);
}

fn used(pid: u32, bytes: u64) -> ProcessMemory {
    ProcessMemory {
        pid,
        used: Some(bytes),
    }
}

#[test]
fn the_largest_record_of_a_process_counts() {
    let list = vec![
        used(1, 10),
        used(2, 50),
        used(1, 30),
        ProcessMemory { pid: 1, used: None },
    ];
    assert_eq!(record_process_memory(1, &list, None), Some(30));
    assert_eq!(record_process_memory(1, &list, Some(40)), Some(40));
    assert_eq!(record_process_memory(3, &list, None), None);
    assert_eq!(record_process_memory(3, &list, Some(9)), Some(9));
}

#[test]
fn memory_adds_up_over_devices() {
    let devices = vec![
        DeviceProcesses {
            compute: vec![used(1, 3 * BYTES_PER_MIB)],
            graphics: vec![used(1, 2 * BYTES_PER_MIB)],
        },
        DeviceProcesses {
            compute: vec![],
            graphics: vec![used(1, BYTES_PER_MIB)],
        },
    ];
    assert_eq!(process_vram(1, &devices), Some(4));
    assert_eq!(process_vram(9, &devices), None);
    assert_eq!(process_vram(1, &vec![]), None);
}

#[test]
fn devices_are_summed_up() {
    let readings = vec![
        DeviceReading {
            index: 0,
            used: 5 * BYTES_PER_MIB,
            free: 3 * BYTES_PER_MIB,
            total: 8 * BYTES_PER_MIB,
        },
        DeviceReading {
            index: 1,
            used: BYTES_PER_MIB + 1,
            free: BYTES_PER_MIB + 1,
            total: 4 * BYTES_PER_MIB,
        },
    ];
    let all = summarize_devices(&readings).unwrap();
    assert_eq!(all.devices.len(), 2);
    assert_eq!(
        all.devices[1],
        GpuDeviceMemory {
            index: 1,
            used_mb: 2,
            free_mb: 1,
            total_mb: 4
        }
    );
    assert_eq!((all.used_mb, all.free_mb, all.total_mb), (7, 4, 12));
    assert!(summarize_devices(&vec![]).is_none());
}

#[test]
fn missing_readings_count_as_nothing() {
    assert_eq!(sample(None, None), (0, 0));
    assert_eq!(sample(Some(4), None), (4, 0));
    assert_eq!(sample(None, Some(6)), (0, 6));
}
