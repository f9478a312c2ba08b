use ashell::number::Float32;
use ashell::snapshot::{
    interval_millis, is_real_filesystem, local_snapshot, remote_snapshot_from_kv,
    snapshot_cpu_field, sort_disks, transferred_since, DiskSample, Load, LocalDisk, SystemError,
};
use ashell::system::{
    format_bytes, process_cpu_fields, remote_ports_from_probe, remote_processes_from_ps,
    RemoteProcess,
};

fn number(value: f32) -> Float32 {
    Float32 { bits: value.to_bits() }
}

fn value(number: Float32) -> f32 {
    f32::from_bits(number.bits)
}

fn reading(field: &str) -> Option<Float32> {
    field.parse::<f32>().ok().map(number)
}

/// The share of the processor that a number in percent stands for.
fn share(field: &str) -> Option<Float32> {
    field.parse::<f32>().ok().map(|percent| number(percent / 100.0))
}

fn processes_of(raw: &str) -> Vec<RemoteProcess> {
    let readings: Vec<Option<Float32>> =
        process_cpu_fields(raw).iter().map(|field| reading(field)).collect();
    remote_processes_from_ps(raw, &readings)
}

fn ratio(used: u64, total: u64) -> f32 {
    if total == 0 {
        0.0
    } else {
        (used as f32 / total as f32).clamp(0.0, 1.0)
    }
}

#[test]
fn parses_remote_process_rows_and_rss_bytes() {
    let processes =
        processes_of("  42 alice 12.5 2048 worker --queue main\n  7 root 0.0 512 sshd\n");

    assert_eq!(processes.len(), 2);
    assert_eq!(processes[0].pid, 42);
    assert_eq!(processes[0].user, "alice");
    assert_eq!(value(processes[0].cpu_percent), 12.5);
    assert_eq!(processes[0].memory_bytes, 2 * 1024 * 1024);
    assert_eq!(processes[0].command, "worker --queue main");
}

#[test]
fn parses_structured_current_process_rows() {
    let processes = processes_of("PROCESS\t42\talice\t37.25\t2097152\tworker --queue main\n");

    assert_eq!(processes.len(), 1);
    assert_eq!(processes[0].pid, 42);
    assert_eq!(processes[0].user, "alice");
    assert_eq!(value(processes[0].cpu_percent), 37.25);
    assert_eq!(processes[0].memory_bytes, 2 * 1024 * 1024);
    assert_eq!(processes[0].command, "worker --queue main");
}

#[test]
fn skips_malformed_remote_process_rows() {
    let processes = processes_of("PID USER CPU RSS COMMAND\n9 root bad 64 init\n");

    assert!(processes.is_empty());
}

#[test]
fn clamps_remote_resource_values_to_valid_ranges() {
    let raw = "CPU_PERCENT=250\nMEM_TOTAL=100\nMEM_USED=150\nSWAP_TOTAL=0\nSWAP_USED=10\nNET_RX=12\nNET_TX=34\nDISK=/\t3145728\t2097152\n";
    let field = snapshot_cpu_field(raw).unwrap();
    let snapshot = remote_snapshot_from_kv(raw, share(&field)).unwrap();

    assert_eq!(value(snapshot.cpu_percent), 1.0);
    assert_eq!(ratio(snapshot.mem_used, snapshot.mem_total), 1.0);
    assert_eq!(ratio(snapshot.swap_used, snapshot.total_swap), 0.0);
    assert_eq!(snapshot.disks[0].available_bytes, 2097152);
}

#[test]
fn parses_structured_remote_port_rows() {
    let ports = remote_ports_from_probe(
        "PORT\ttcp\t0.0.0.0\t22\tLISTEN\t123\tsshd\nPORT\tudp\t127.0.0.1\t5353\tUNCONN\t-\t-\n",
    );

    assert_eq!(ports.len(), 2);
    assert_eq!(ports[0].protocol, "tcp");
    assert_eq!(ports[0].address, "0.0.0.0");
    assert_eq!(ports[0].port, 22);
    assert_eq!(ports[0].state, "LISTEN");
    assert_eq!(ports[0].pid, Some(123));
    assert_eq!(ports[0].process, "sshd");
    assert_eq!(ports[1].pid, None);
}

#[test]
fn skips_malformed_remote_port_rows() {
    let ports = remote_ports_from_probe(
        "PORT\ttcp\t0.0.0.0\tbad\tLISTEN\t1\tsshd\nPORT\ttcp\t\t80\tLISTEN\t1\tnginx\n",
    );

    assert!(ports.is_empty());
}

#[test]
fn a_snapshot_shows_its_numbers() {
    let raw = "CPU_PERCENT=7.5\nMEM_TOTAL=2048\nMEM_USED=1024\nSWAP_TOTAL=4096\nSWAP_USED=512\nNET_RX=1536\nNET_TX=34\nDISK=/home\t1\t2097152\nDISK=/\t5\t4194304\n";
    let snapshot = remote_snapshot_from_kv(raw, share("7.5")).unwrap();

    assert_eq!(value(snapshot.cpu_percent), 0.075);
    assert_eq!(snapshot.mem_detail, "1.0 KB/2.0 KB");
    assert_eq!(snapshot.swap_detail, "512 B/4.0 KB");
    assert_eq!(snapshot.net_rx, "1.5 KB/s");
    assert_eq!(snapshot.net_tx, "34 B/s");
    assert_eq!(snapshot.disks[0].mount, "/");
    assert_eq!(snapshot.disks[1].mount, "/home");
}

#[test]
fn a_snapshot_needs_a_share_of_the_processor() {
    let error = remote_snapshot_from_kv("MEM_TOTAL=1\n", None).unwrap_err();

    assert_eq!(error, SystemError::MissingCpuPercent);
    assert_eq!(error.message(), "missing CPU_PERCENT");
    assert_eq!(snapshot_cpu_field("MEM_TOTAL=1\n"), None);
}

#[test]
fn a_share_that_is_no_number_counts_as_zero() {
    let raw = "CPU_PERCENT=nan\n";

    let odd = remote_snapshot_from_kv(raw, Some(number(f32::NAN))).unwrap();
    assert_eq!(value(odd.cpu_percent), 0.0);
    let missing = remote_snapshot_from_kv(raw, None).unwrap();
    assert_eq!(value(missing.cpu_percent), 0.0);
    let negative = remote_snapshot_from_kv(raw, Some(number(-0.03))).unwrap();
    assert_eq!(value(negative.cpu_percent), 0.0);
}

#[test]
fn byte_counts_read_as_the_floating_point_rendering_of_them() {
    let units = ["B", "KB", "MB", "GB", "TB"];
    let mut samples: Vec<u64> = vec![0, 1, 1023, 1024, 1075, 1076, 1126, 1127, 1536, u64::MAX];
    for shift in 10..64 {
        let power = 1u64 << shift;
        for step in [1u64, 7, 51, 512] {
            samples.push(power - step);
            samples.push(power + step);
            samples.push(power.saturating_mul(3) / 2 + step);
        }
    }
    for bytes in samples {
        let mut amount = bytes as f64;
        let mut unit = 0;
        while amount >= 1024.0 && unit < units.len() - 1 {
            amount /= 1024.0;
            unit += 1;
        }
        let expected = if unit == 0 {
            format!("{bytes} {}", units[unit])
        } else {
            format!("{amount:.1} {}", units[unit])
        };
        assert_eq!(format_bytes(bytes), expected);
    }
}

#[test]
fn byte_counts_have_one_decimal() {
    assert_eq!(format_bytes(0), "0 B");
    assert_eq!(format_bytes(1023), "1023 B");
    assert_eq!(format_bytes(1024), "1.0 KB");
    assert_eq!(format_bytes(1536 * 1024), "1.5 MB");
    assert_eq!(format_bytes(u64::MAX), "16777216.0 TB");
}

#[test]
fn file_systems_in_memory_are_no_disks() {
    assert!(is_real_filesystem(Some("ext4")));
    assert!(is_real_filesystem(None));
    for name in ["tmpfs", "devtmpfs", "ramfs", "overlay", "aufs"] {
        assert!(!is_real_filesystem(Some(name)));
    }
}

fn disk(mount: &str, total_bytes: u64) -> DiskSample {
    DiskSample { mount: mount.to_string(), available_bytes: 1, total_bytes }
}

#[test]
fn the_root_comes_first_among_the_disks() {
    let sorted = sort_disks(&[disk("/home", 9), disk("/boot", 9), disk("/", 9)]);
    let mounts: Vec<&str> = sorted.iter().map(|disk| disk.mount.as_str()).collect();

    assert_eq!(mounts, vec!["/", "/boot", "/home"]);
}

#[test]
fn a_local_snapshot_leaves_out_what_is_no_disk() {
    let load = Load {
        cpu_percent: number(0.12),
        mem_used: 1,
        mem_total: 2,
        swap_used: 0,
        total_swap: 0,
        net_rx_rate: 3,
        net_tx_rate: 4,
    };
    let disks = vec![
        LocalDisk { filesystem: Some("tmpfs".to_string()), sample: disk("/tmp", 9) },
        LocalDisk { filesystem: Some("ext4".to_string()), sample: disk("/", 9) },
        LocalDisk { filesystem: Some("ext4".to_string()), sample: disk("/empty", 0) },
    ];
    let snapshot = local_snapshot(load, &disks);

    assert_eq!(snapshot.disks.len(), 1);
    assert_eq!(snapshot.disks[0].mount, "/");
    assert_eq!(snapshot.net_rx, "3 B/s");
}

#[test]
fn counters_that_went_back_count_nothing() {
    assert_eq!(transferred_since(10, 4), 6);
    assert_eq!(transferred_since(4, 10), 0);
    assert_eq!(interval_millis(), 1000);
}
