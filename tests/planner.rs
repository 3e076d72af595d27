use disks::disk::{BlockDevice, MockDisk};
use disks::planner::{Change, PlanError, Planner, Region};

const MB: u64 = 1024 * 1024;
const GB: u64 = 1024 * MB;

fn planner_for(disk: MockDisk) -> Planner {
    Planner::new(&BlockDevice::mock_device(disk))
}

fn spans(v: &[Region]) -> Vec<(u64, u64, Option<u32>)> {
    v.iter().map(|r| (r.start, r.end, r.partition_id)).collect()
}

#[test]
fn add_snaps_to_alignment() {
    let mut planner = planner_for(MockDisk::new(10 * GB));
    assert_eq!(planner.plan_add_partition(MB + 1000, 2 * MB + 600 * 1024), Ok(1));
    let layout = planner.current_layout();
    assert_eq!((layout[0].start, layout[0].end), (MB, 3 * MB));
}

#[test]
fn add_outside_usable_range_fails() {
    let mut planner = planner_for(MockDisk::new(10 * GB));
    assert_eq!(planner.plan_add_partition(0, 2 * MB), Err(PlanError::RegionOutOfBounds { start: 0, end: 2 * MB }));
    assert_eq!(
        planner.plan_add_partition(MB, 10 * GB),
        Err(PlanError::RegionOutOfBounds { start: MB, end: 10 * GB })
    );
    assert!(!planner.has_changes());
}

#[test]
fn add_overlapping_fails() {
    let mut planner = planner_for(MockDisk::new(10 * GB));
    assert_eq!(planner.plan_add_partition(MB, GB), Ok(1));
    assert_eq!(
        planner.plan_add_partition(512 * MB, 2 * GB),
        Err(PlanError::PartitionOverlap { start: 512 * MB, end: 2 * GB, id: 1 })
    );
    assert_eq!(planner.changes().len(), 1);
}

#[test]
fn add_empty_fails() {
    let mut planner = planner_for(MockDisk::new(10 * GB));
    assert_eq!(planner.plan_add_partition(5 * MB, 5 * MB), Err(PlanError::InvalidSize { start: 5 * MB, end: 5 * MB }));
}

#[test]
fn layout_stays_sorted_and_ids_are_fresh() {
    let mut planner = planner_for(MockDisk::new(10 * GB));
    assert_eq!(planner.plan_add_partition(4 * GB, 5 * GB), Ok(1));
    assert_eq!(planner.plan_add_partition(MB, GB), Ok(2));
    assert_eq!(planner.plan_add_partition(2 * GB, 3 * GB), Ok(3));
    let layout = planner.current_layout();
    assert_eq!(spans(&layout), vec![(MB, GB, Some(2)), (2 * GB, 3 * GB, Some(3)), (4 * GB, 5 * GB, Some(1))]);
    assert!(planner.undo());
    assert_eq!(planner.plan_add_partition(2 * GB, 3 * GB), Ok(4));
}

#[test]
fn undo_until_clean_restores_original_layout() {
    let mut disk = MockDisk::new(10 * GB);
    disk.add_partition(MB, GB);
    disk.add_partition(GB, 2 * GB);
    let mut planner = planner_for(disk);
    let original = spans(&planner.original_layout());
    assert_eq!(original, vec![(MB, GB, Some(1)), (GB, 2 * GB, Some(2))]);
    assert_eq!(planner.plan_delete_partition(1), Ok(()));
    assert_eq!(planner.plan_add_partition(3 * GB, 4 * GB), Ok(3));
    assert_eq!(planner.plan_initialize_disk(), Ok(()));
    assert_eq!(planner.current_layout().len(), 0);
    assert_eq!(planner.plan_add_partition(MB, 4 * GB), Ok(1));
    assert!(planner.has_changes());
    while planner.has_changes() {
        assert!(planner.undo());
    }
    assert_eq!(spans(&planner.current_layout()), original);
    assert!(!planner.wipe_disk());
    assert!(!planner.undo());
}

#[test]
fn delete_then_undo_restores_partition() {
    let mut disk = MockDisk::new(10 * GB);
    disk.add_partition(MB, GB);
    let mut planner = planner_for(disk);
    assert_eq!(planner.plan_delete_partition(7), Err(PlanError::PartitionNotFound { id: 7 }));
    assert_eq!(planner.plan_delete_partition(1), Ok(()));
    assert_eq!(planner.current_layout().len(), 0);
    match &planner.changes()[0] {
        Change::DeletePartition { partition_id, original_index, region } => {
            assert_eq!(*partition_id, 1);
            assert_eq!(*original_index, 0);
            assert_eq!((region.start, region.end), (MB, GB));
        }
        _ => panic!("expected a deletion"),
    }
    assert!(planner.undo());
    assert_eq!(spans(&planner.current_layout()), vec![(MB, GB, Some(1))]);
}

#[test]
fn initialize_sets_latch_and_restarts_ids() {
    let mut disk = MockDisk::new(10 * GB);
    disk.add_partition(MB, GB);
    let mut planner = planner_for(disk);
    assert!(!planner.has_changes());
    assert_eq!(planner.plan_initialize_disk(), Ok(()));
    assert!(planner.wipe_disk());
    assert!(planner.has_changes());
    assert_eq!(planner.plan_add_partition(MB, GB), Ok(1));
}

#[test]
fn initialize_on_blank_disk_is_a_change() {
    let mut planner = planner_for(MockDisk::new(10 * GB));
    assert_eq!(planner.plan_initialize_disk(), Ok(()));
    assert!(planner.has_changes());
    assert_eq!(planner.changes().len(), 0);
    assert!(planner.undo());
    assert!(!planner.has_changes());
}

#[test]
fn partitions_stay_disjoint_and_in_bounds() {
    let mut planner = planner_for(MockDisk::new(20 * GB));
    let requests = [(0, GB), (MB, GB), (GB / 2, 3 * GB), (3 * GB, 25 * GB), (3 * GB, 8 * GB), (9 * GB, 9 * GB)];
    for (s, e) in requests {
        let _ = planner.plan_add_partition(s, e);
    }
    let (first, last) = planner.offsets();
    let layout = planner.current_layout();
    for r in &layout {
        assert!(first <= r.start && r.start < r.end && r.end <= last);
        assert_eq!(r.start % MB, 0);
        assert_eq!(r.end % MB, 0);
    }
    for (i, a) in layout.iter().enumerate() {
        for b in layout.iter().skip(i + 1) {
            assert!(a.end <= b.start || b.end <= a.start);
            assert_ne!(a.partition_id, b.partition_id);
        }
    }
}

#[test]
fn region_describe_gives_size_and_positions() {
    let r = Region::new(MB, GB);
    assert_eq!(r.describe(2 * GB), "1023.0MiB at 0% (1.0MiB)..50% (1.0GiB)");
}

#[test]
fn describe_changes_lists_the_journal() {
    let mut planner = planner_for(MockDisk::new(4 * GB));
    assert_eq!(planner.describe_changes(), "No changes planned");
    assert_eq!(planner.plan_initialize_disk(), Ok(()));
    assert_eq!(planner.plan_add_partition(MB, GB), Ok(1));
    assert_eq!(
        planner.describe_changes(),
        "Planned changes:\n  Create a new partition table\n  1: Add partition 1: 1023.0MiB at 0% (1.0MiB)..25% (1.0GiB)\n"
    );
}
