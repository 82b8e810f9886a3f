use blockdev_api::schema::{BlockDevice, BlockDeviceKind, Partition, Superblock};
use blockdev_api::source::{Device, Disk, FieldRead, Loopback, ProbedSuperblock, SourcePartition};

fn source_partition(number: u32, start: u64, end: u64) -> SourcePartition {
    SourcePartition {
        name: format!("sda{}", number),
        device: format!("/dev/sda{}", number),
        number,
        start,
        end,
        size: end - start,
    }
}

fn sample_disk() -> Disk {
    Disk {
        device_path: String::from("/dev/sda"),
        size: 512_110_190_592,
        sectors: 1_000_215_216,
        model: Some(String::from("Samsung SSD 860")),
        partitions: vec![source_partition(1, 2048, 1_050_624), source_partition(2, 1_050_624, 1_000_215_182)],
    }
}

#[test]
fn partition_fields_are_copied() {
    let source = SourcePartition {
        name: String::from("nvme0n1p3"),
        device: String::from("/dev/nvme0n1p3"),
        number: 3,
        start: 4096,
        end: 8192,
        size: 4096,
    };
    let wire = Partition::from_source(&source);
    assert_eq!(
        wire,
        Partition {
            name: String::from("nvme0n1p3"),
            path: String::from("/dev/nvme0n1p3"),
            number: 3,
            start: 4096,
            end: 8192,
            size: 4096,
        }
    );
}

#[test]
fn partition_units_pass_through_unchanged() {
    let source = SourcePartition {
        name: String::from("odd"),
        device: String::from("/dev/odd"),
        number: u32::MAX,
        start: 7,
        end: 3,
        size: u64::MAX,
    };
    let wire = Partition::from_source(&source);
    assert_eq!(wire.number, u32::MAX);
    assert_eq!(wire.start, 7);
    assert_eq!(wire.end, 3);
    assert_eq!(wire.size, u64::MAX);
}

#[test]
fn disk_keeps_geometry_model_and_partition_order() {
    let disk = sample_disk();
    let wire = BlockDevice::from_disk(&disk);
    assert_eq!(wire.path, "/dev/sda");
    assert_eq!(wire.size, 512_110_190_592);
    assert_eq!(wire.sectors, 1_000_215_216);
    assert_eq!(wire.kind, BlockDeviceKind::Disk);
    assert_eq!(wire.model, Some(String::from("Samsung SSD 860")));
    assert_eq!(wire.partitions.len(), 2);
    for (wire_partition, source) in wire.partitions.iter().zip(disk.partitions.iter()) {
        assert_eq!(wire_partition.name, source.name);
        assert_eq!(wire_partition.path, source.device);
        assert_eq!(wire_partition.number, source.number);
        assert_eq!(wire_partition.start, source.start);
        assert_eq!(wire_partition.end, source.end);
        assert_eq!(wire_partition.size, source.size);
    }
    assert_eq!(wire.partitions[0].number, 1);
    assert_eq!(wire.partitions[1].number, 2);
}

#[test]
fn disk_without_model_or_partitions() {
    let disk = Disk {
        device_path: String::from("/dev/vdb"),
        size: 1024,
        sectors: 2,
        model: None,
        partitions: Vec::new(),
    };
    let wire = BlockDevice::from_disk(&disk);
    assert_eq!(wire.model, None);
    assert!(wire.partitions.is_empty());
    assert_eq!(wire.size, 1024);
    assert_eq!(wire.sectors, 2);
}

#[test]
fn disk_partition_order_is_not_sorted() {
    let disk = Disk {
        device_path: String::from("/dev/sdb"),
        size: 0,
        sectors: 0,
        model: None,
        partitions: vec![source_partition(3, 300, 400), source_partition(1, 100, 200), source_partition(2, 200, 300)],
    };
    let numbers: Vec<u32> = BlockDevice::from_disk(&disk).partitions.iter().map(|p| p.number).collect();
    assert_eq!(numbers, vec![3, 1, 2]);
}

#[test]
fn loopback_without_disk_defaults() {
    let loopback = Loopback {
        device_path: String::from("/dev/loop0"),
        file_path: Some(String::from("/var/lib/images/root.img")),
        disk: None,
    };
    let wire = BlockDevice::from_loopback(&loopback);
    assert_eq!(wire.path, "/dev/loop0");
    assert_eq!(wire.size, 0);
    assert_eq!(wire.sectors, 0);
    assert!(wire.partitions.is_empty());
    assert_eq!(wire.model, None);
    assert_eq!(
        wire.kind,
        BlockDeviceKind::Loopback { backing_file: Some(String::from("/var/lib/images/root.img")) }
    );
}

#[test]
fn loopback_without_disk_or_file() {
    let loopback = Loopback { device_path: String::from("/dev/loop7"), file_path: None, disk: None };
    let wire = BlockDevice::from_loopback(&loopback);
    assert_eq!(wire.kind, BlockDeviceKind::Loopback { backing_file: None });
    assert_eq!(wire.size, 0);
    assert_eq!(wire.sectors, 0);
    assert!(wire.partitions.is_empty());
    assert_eq!(wire.model, None);
}

#[test]
fn loopback_with_disk_takes_its_geometry_but_not_its_model() {
    let loopback = Loopback {
        device_path: String::from("/dev/loop1"),
        file_path: Some(String::from("/tmp/disk.img")),
        disk: Some(sample_disk()),
    };
    let wire = BlockDevice::from_loopback(&loopback);
    assert_eq!(wire.path, "/dev/loop1");
    assert_eq!(wire.size, 512_110_190_592);
    assert_eq!(wire.sectors, 1_000_215_216);
    assert_eq!(wire.model, None);
    assert_eq!(wire.partitions, BlockDevice::from_disk(&sample_disk()).partitions);
    assert_eq!(wire.kind, BlockDeviceKind::Loopback { backing_file: Some(String::from("/tmp/disk.img")) });
}

#[test]
fn device_dispatches_on_its_kind() {
    let disk = Device::Disk(sample_disk());
    let loopback = Device::Loopback(Loopback {
        device_path: String::from("/dev/loop0"),
        file_path: None,
        disk: None,
    });
    assert_eq!(BlockDevice::from_device(&disk), BlockDevice::from_disk(&sample_disk()));
    assert_eq!(BlockDevice::from_device(&loopback).kind, BlockDeviceKind::Loopback { backing_file: None });
    let all = BlockDevice::from_devices(&vec![loopback.clone(), disk.clone()]);
    assert_eq!(all, vec![BlockDevice::from_device(&loopback), BlockDevice::from_device(&disk)]);
}

#[test]
fn superblock_with_all_fields() {
    let probed = ProbedSuperblock {
        uuid: FieldRead::Read(String::from("6f1c2d3e-0000-4000-8000-123456789abc")),
        label: FieldRead::Read(String::from("root")),
        kind: String::from("ext4"),
    };
    assert_eq!(
        Superblock::from_probe(probed),
        Superblock {
            uuid: Some(String::from("6f1c2d3e-0000-4000-8000-123456789abc")),
            label: Some(String::from("root")),
            filesystem: String::from("ext4"),
        }
    );
}

#[test]
fn superblock_failed_readings_are_absent() {
    let probed = ProbedSuperblock {
        uuid: FieldRead::Failed(String::from("invalid utf-8 in uuid")),
        label: FieldRead::Failed(String::from("short read")),
        kind: String::from("luks2"),
    };
    assert_eq!(
        Superblock::from_probe(probed),
        Superblock { uuid: None, label: None, filesystem: String::from("luks2") }
    );
}

#[test]
fn superblock_empty_label_is_present_not_absent() {
    let probed = ProbedSuperblock {
        uuid: FieldRead::Failed(String::new()),
        label: FieldRead::Read(String::new()),
        kind: String::from("btrfs"),
    };
    let wire = Superblock::from_probe(probed);
    assert_eq!(wire.uuid, None);
    assert_eq!(wire.label, Some(String::new()));
    assert_eq!(wire.filesystem, "btrfs");
}
