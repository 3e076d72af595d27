use disks::disk::{BlockDevice, MockDisk};
use disks::writer::{partition_prefix_to_zero, protective_mbr_sectors, zero_blocks, DiskWriter, GptOperation, WriteError};
use disks::planner::Planner;
use disks::types::GptPartitionType;

const MB: u64 = 1024 * 1024;
const GB: u64 = 1024 * MB;

#[test]
fn mock_disk_numbers_partitions() {
    let mut disk = MockDisk::new(10 * GB + 100);
    disk.add_partition(MB, GB + 511);
    disk.add_partition(GB, 2 * GB);
    let d = disk.disk();
    assert_eq!(d.sectors, 10 * GB / 512);
    assert_eq!(d.device, "/dev/mock0");
    let p = &d.partitions()[1];
    assert_eq!((p.number, p.start, p.end, p.size), (2, GB / 512, 2 * GB / 512, GB / 512));
    assert_eq!(p.name, "mock0p2");
    assert_eq!(p.device, "/dev/mock0p2");
    assert_eq!(d.partitions()[0].end, GB / 512);
    let named = MockDisk::new_with_name("vdb", 4096, true);
    assert_eq!(named.disk().device, "/dev/vdb");
    assert_eq!(BlockDevice::mock_device(named).size(), 4096);
}

#[test]
fn protective_mbr_is_capped() {
    assert_eq!(protective_mbr_sectors(500 * GB), (500 * GB / 512 - 1) as u32);
    assert_eq!(protective_mbr_sectors(4096 * GB), 0xFFFF_FFFF);
    assert_eq!(protective_mbr_sectors(0), 0);
}

#[test]
fn zeroing_sizes() {
    assert_eq!(partition_prefix_to_zero(MB), MB);
    assert_eq!(partition_prefix_to_zero(GB), 2 * MB);
    assert_eq!(zero_blocks(2 * MB + 100), (32, 100));
}

#[test]
fn writer_turns_journal_into_gpt_operations() {
    let mut disk = MockDisk::new(10 * GB);
    disk.add_partition(MB, GB);
    let device = BlockDevice::mock_device(disk);
    let mut planner = Planner::new(&device);
    assert_eq!(planner.plan_delete_partition(1), Ok(()));
    assert_eq!(planner.plan_add_partition(GB, 3 * GB), Ok(2));
    let writer = DiskWriter::new(&device, &planner);
    assert_eq!(writer.validate_changes(), Ok::<(), WriteError>(()));
    let ops = writer.gpt_operations();
    assert_eq!(ops.len(), 2);
    assert!(matches!(ops[0], GptOperation::Remove { id: 1 }));
    match &ops[1] {
        GptOperation::Add { name, id, first_lba, length_lba, type_guid } => {
            assert_eq!(name, "");
            assert_eq!(*id, 2);
            assert_eq!(*first_lba, GB / 512);
            assert_eq!(*length_lba, 2 * GB / 512);
            assert_eq!(*type_guid, GptPartitionType::Basic);
        }
        _ => panic!("expected an addition"),
    }
    assert_eq!(writer.added_regions(), vec![(GB, 3 * GB)]);
}

#[test]
fn writer_checks_device_size() {
    let device = BlockDevice::mock_device(MockDisk::new(10 * GB));
    let planner = Planner::new(&device);
    let writer = DiskWriter::new(&device, &planner);
    assert_eq!(writer.validate_size(10 * GB), Ok(()));
    assert_eq!(writer.validate_size(9 * GB), Err(WriteError::DeviceSizeChanged { planned: 10 * GB, observed: 9 * GB }));
}
