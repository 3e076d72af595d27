use disks::disk::{BlockDevice, MockDisk};
use disks::planner::{PlanError, Planner};
use disks::strategy::{AllocationStrategy, PartitionRequest, SizeRequirement, Strategy};

const MB: u64 = 1024 * 1024;
const GB: u64 = 1024 * MB;

const EFI_SIZE: u64 = 512 * MB;
const BOOT_SIZE: u64 = GB;
const SWAP_MIN: u64 = 4 * GB;
const SWAP_MAX: u64 = 8 * GB;
const ROOT_MIN: u64 = 20 * GB;
const ROOT_MAX: u64 = 100 * GB;

fn root_partition() -> PartitionRequest {
    PartitionRequest { size: SizeRequirement::AtLeast(ROOT_MIN), attributes: None }
}

fn capped_root_partition() -> PartitionRequest {
    PartitionRequest { size: SizeRequirement::Range { min: ROOT_MIN, max: ROOT_MAX }, attributes: None }
}

fn efi_partition() -> PartitionRequest {
    PartitionRequest { size: SizeRequirement::Exact(EFI_SIZE), attributes: None }
}

fn boot_partition() -> PartitionRequest {
    PartitionRequest { size: SizeRequirement::Exact(BOOT_SIZE), attributes: None }
}

fn swap_partition() -> PartitionRequest {
    PartitionRequest { size: SizeRequirement::Range { min: SWAP_MIN, max: SWAP_MAX }, attributes: None }
}

fn home_partition() -> PartitionRequest {
    PartitionRequest { size: SizeRequirement::Remaining, attributes: None }
}

fn create_test_disk() -> MockDisk {
    MockDisk::new(500 * GB)
}

#[test]
fn test_uefi_clean_install() {
    let disk = create_test_disk();
    let mut planner = Planner::new(&BlockDevice::mock_device(disk));
    let mut strategy = Strategy::new(AllocationStrategy::InitializeWholeDisk);

    strategy.add_request(efi_partition());
    strategy.add_request(boot_partition());
    strategy.add_request(swap_partition());
    strategy.add_request(capped_root_partition());
    strategy.add_request(home_partition());

    println!("\nUEFI Clean Install Strategy:\n{}", strategy.describe());
    assert!(strategy.apply(&mut planner).is_ok());

    let layout = planner.current_layout();
    assert_eq!(layout.len(), 5);
    assert!(layout[0].size() >= EFI_SIZE);
    assert!(layout[1].size() >= BOOT_SIZE);
    assert!(layout[2].size() >= SWAP_MIN);
    assert!(layout[3].size() >= ROOT_MIN);
}

#[test]
fn uefi_clean_install_fills_usable_range() {
    let disk = create_test_disk();
    let mut planner = Planner::new(&BlockDevice::mock_device(disk));
    let mut strategy = Strategy::new(AllocationStrategy::InitializeWholeDisk);
    strategy.add_request(efi_partition());
    strategy.add_request(boot_partition());
    strategy.add_request(swap_partition());
    strategy.add_request(capped_root_partition());
    strategy.add_request(home_partition());
    assert!(strategy.apply(&mut planner).is_ok());
    assert!(planner.wipe_disk());

    let (first, last) = planner.offsets();
    assert_eq!(first, MB);
    assert_eq!(last, 500 * GB - MB);
    let layout = planner.current_layout();
    assert_eq!(layout[0].size(), EFI_SIZE);
    assert_eq!(layout[1].size(), BOOT_SIZE);
    assert_eq!(layout[2].size(), SWAP_MAX);
    assert_eq!(layout[3].size(), ROOT_MAX);
    let total: u64 = layout.iter().map(|r| r.size()).sum();
    assert_eq!(total, last - first);
    assert_eq!(layout[0].start, first);
    assert_eq!(layout[4].end, last);
    for pair in layout.windows(2) {
        assert_eq!(pair[0].end, pair[1].start);
    }
    let ids: Vec<Option<u32>> = layout.iter().map(|r| r.partition_id).collect();
    assert_eq!(ids, vec![Some(1), Some(2), Some(3), Some(4), Some(5)]);
}

#[test]
fn test_dual_boot_install() {
    let mut disk = create_test_disk();
    disk.add_partition(0, 100 * MB);
    disk.add_partition(100 * MB, 116 * MB);
    disk.add_partition(116 * MB, 200 * GB);

    let mut planner = Planner::new(&BlockDevice::mock_device(disk));
    let mut strategy = Strategy::new(AllocationStrategy::LargestFree);

    strategy.add_request(swap_partition());
    strategy.add_request(root_partition());

    println!("\nDual Boot Strategy:\n{}", strategy.describe());
    assert!(strategy.apply(&mut planner).is_ok());

    let layout = planner.current_layout();
    assert_eq!(layout.len(), 5);
}

#[test]
fn dual_boot_places_new_partitions_in_tail_gap() {
    let mut disk = create_test_disk();
    disk.add_partition(0, 100 * MB);
    disk.add_partition(100 * MB, 116 * MB);
    disk.add_partition(116 * MB, 200 * GB);
    let mut planner = Planner::new(&BlockDevice::mock_device(disk));
    let mut strategy = Strategy::new(AllocationStrategy::LargestFree);
    strategy.add_request(swap_partition());
    strategy.add_request(root_partition());
    assert!(strategy.apply(&mut planner).is_ok());
    assert!(!planner.wipe_disk());
    let layout = planner.current_layout();
    assert_eq!((layout[3].start, layout[3].end), (200 * GB, 208 * GB));
    assert_eq!((layout[4].start, layout[4].end), (208 * GB, 500 * GB - MB));
    assert_eq!(layout[3].partition_id, Some(4));
    assert_eq!(layout[4].partition_id, Some(5));
    assert_eq!(planner.changes().len(), 2);
}

#[test]
fn test_minimal_server_install() {
    let disk = create_test_disk();
    let mut planner = Planner::new(&BlockDevice::mock_device(disk));
    let mut strategy = Strategy::new(AllocationStrategy::InitializeWholeDisk);

    strategy.add_request(boot_partition());
    strategy.add_request(PartitionRequest { size: SizeRequirement::Remaining, attributes: None });

    println!("\nMinimal Server Strategy:\n{}", strategy.describe());
    assert!(strategy.apply(&mut planner).is_ok());

    let layout = planner.current_layout();
    assert_eq!(layout.len(), 2);
}

#[test]
fn test_insufficient_space() {
    let disk = MockDisk::new(10 * GB);
    let mut planner = Planner::new(&BlockDevice::mock_device(disk));
    let mut strategy = Strategy::new(AllocationStrategy::InitializeWholeDisk);

    strategy.add_request(PartitionRequest { size: SizeRequirement::Exact(20 * GB), attributes: None });

    assert!(strategy.apply(&mut planner).is_err());
}

#[test]
fn insufficient_space_reports_bounds_and_leaves_no_changes() {
    let disk = MockDisk::new(10 * GB);
    let mut planner = Planner::new(&BlockDevice::mock_device(disk));
    let mut strategy = Strategy::new(AllocationStrategy::InitializeWholeDisk);
    strategy.add_request(PartitionRequest { size: SizeRequirement::Exact(20 * GB), attributes: None });
    let result = strategy.apply(&mut planner);
    assert_eq!(result, Err(PlanError::RegionOutOfBounds { start: MB, end: MB + 20 * GB }));
    assert!(!planner.has_changes());
}

#[test]
fn test_flexible_partition_overflow() {
    let disk = MockDisk::new(10 * GB);
    let mut planner = Planner::new(&BlockDevice::mock_device(disk));
    let mut strategy = Strategy::new(AllocationStrategy::InitializeWholeDisk);

    strategy.add_request(PartitionRequest { size: SizeRequirement::AtLeast(6 * GB), attributes: None });
    strategy.add_request(PartitionRequest { size: SizeRequirement::AtLeast(6 * GB), attributes: None });

    let result = strategy.apply(&mut planner);
    assert!(matches!(result, Err(PlanError::RegionOutOfBounds { .. })));
    assert!(!planner.has_changes());
}

#[test]
fn test_partial_partition_creation() {
    let disk = MockDisk::new(8 * GB);
    let mut planner = Planner::new(&BlockDevice::mock_device(disk));
    let mut strategy = Strategy::new(AllocationStrategy::InitializeWholeDisk);

    strategy.add_request(PartitionRequest { size: SizeRequirement::Range { min: GB, max: 2 * GB }, attributes: None });
    strategy.add_request(PartitionRequest {
        size: SizeRequirement::Range { min: 2 * GB, max: 4 * GB },
        attributes: None,
    });
    strategy.add_request(PartitionRequest {
        size: SizeRequirement::Range { min: 25 * GB, max: 120 * GB },
        attributes: None,
    });

    let result = strategy.apply(&mut planner);
    assert!(matches!(result, Err(PlanError::RegionOutOfBounds { .. })));
    assert!(!planner.has_changes(), "Partial changes should be undone");
}

#[test]
fn failed_strategy_keeps_earlier_changes() {
    let disk = MockDisk::new(10 * GB);
    let mut planner = Planner::new(&BlockDevice::mock_device(disk));
    assert_eq!(planner.plan_add_partition(MB, 2 * GB), Ok(1));
    let before = planner.current_layout();
    let mut strategy = Strategy::new(AllocationStrategy::InitializeWholeDisk);
    strategy.add_request(PartitionRequest { size: SizeRequirement::Exact(20 * GB), attributes: None });
    assert!(strategy.apply(&mut planner).is_err());
    assert!(planner.has_changes());
    assert!(!planner.wipe_disk());
    let after = planner.current_layout();
    assert_eq!(after.len(), before.len());
    assert_eq!((after[0].start, after[0].end), (before[0].start, before[0].end));
    assert_eq!(planner.changes().len(), 1);
}

#[test]
fn flexible_minimum_failure_rolls_back_placed_partitions() {
    let disk = MockDisk::new(10 * GB);
    let mut planner = Planner::new(&BlockDevice::mock_device(disk));
    let mut strategy = Strategy::new(AllocationStrategy::InitializeWholeDisk);
    strategy.add_request(PartitionRequest { size: SizeRequirement::AtLeast(GB), attributes: None });
    strategy.add_request(PartitionRequest { size: SizeRequirement::AtLeast(GB), attributes: None });
    strategy.add_request(PartitionRequest { size: SizeRequirement::AtLeast(6 * GB), attributes: None });
    let result = strategy.apply(&mut planner);
    assert!(result.is_err());
    assert!(!planner.has_changes());
    assert_eq!(planner.current_layout().len(), 0);
}

#[test]
fn first_fit_uses_first_gap() {
    let mut disk = MockDisk::new(10 * GB);
    disk.add_partition(2 * GB, 3 * GB);
    let mut planner = Planner::new(&BlockDevice::mock_device(disk));
    let mut strategy = Strategy::new(AllocationStrategy::FirstFit);
    strategy.add_request(PartitionRequest { size: SizeRequirement::Remaining, attributes: None });
    assert!(strategy.apply(&mut planner).is_ok());
    let layout = planner.current_layout();
    assert_eq!((layout[0].start, layout[0].end), (MB, 2 * GB));
}

#[test]
fn largest_free_without_space_fails() {
    let mut disk = MockDisk::new(4 * GB);
    disk.add_partition(0, 4 * GB);
    let mut planner = Planner::new(&BlockDevice::mock_device(disk));
    let mut strategy = Strategy::new(AllocationStrategy::LargestFree);
    strategy.add_request(PartitionRequest { size: SizeRequirement::Remaining, attributes: None });
    assert_eq!(strategy.apply(&mut planner), Err(PlanError::NoFreeRegions));
    assert!(!planner.has_changes());
}

#[test]
fn describe_lists_requests() {
    let mut strategy = Strategy::new(AllocationStrategy::InitializeWholeDisk);
    strategy.add_request(efi_partition());
    strategy.add_request(swap_partition());
    strategy.add_request(root_partition());
    strategy.add_request(home_partition());
    assert_eq!(
        strategy.describe(),
        "Initialize new partition layout on entire disk\nRequested partitions:\n  1: exactly 512.0MiB\n  2: between 4.0GiB and 8.0GiB\n  3: at least 20.0GiB\n  4: remaining space\n"
    );
    assert_eq!(Strategy::new(AllocationStrategy::FirstFit).describe(), "Use first available region");
}
