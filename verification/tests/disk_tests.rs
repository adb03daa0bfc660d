use blockcheck::device::BlockDevice;
use blockcheck::disk::DiskSchema;
use blockcheck::errors::StorageError;

fn four_cluster_disk() -> DiskSchema {
    // A simulated 4 MiB device: exactly 4 whole clusters.
    let dev = BlockDevice::new("/dev/simnbd0", 8192).unwrap();
    DiskSchema::new(dev)
}

#[test]
fn end_to_end_fill_check_inject() {
    let mut disk = four_cluster_disk();
    assert_eq!(disk.nr_clusters(), 4);

    disk.fill_whole_disk();
    assert!(disk.check_whole_disk().is_empty());

    assert!(disk.inject_cluster_error(2));

    let bad2 = disk.check_disk(2).unwrap();
    assert!(!bad2.is_empty());
    assert!(disk.check_disk(0).unwrap().is_empty());
    assert!(disk.check_disk(1).unwrap().is_empty());
    assert!(disk.check_disk(3).unwrap().is_empty());

    let pairs = disk.check_whole_disk();
    assert!(!pairs.is_empty());
    for (c, s) in &pairs {
        assert_eq!(*c, 2);
        assert!(*s < 2048);
    }
}

#[test]
fn whole_disk_report_is_complete_and_ordered() {
    let mut disk = four_cluster_disk();
    disk.fill_whole_disk();
    assert!(disk.inject_cluster_error(3));
    assert!(disk.inject_cluster_error(1));

    let pairs = disk.check_whole_disk();
    let bad1 = disk.check_disk(1).unwrap();
    let bad3 = disk.check_disk(3).unwrap();

    let mut expected: Vec<(u64, u64)> = Vec::new();
    for s in &bad1 {
        expected.push((1, *s));
    }
    for s in &bad3 {
        expected.push((3, *s));
    }
    assert_eq!(pairs, expected);
    assert!(!bad1.is_empty());
    assert!(!bad3.is_empty());
}

#[test]
fn fill_single_cluster() {
    let mut disk = four_cluster_disk();
    disk.fill_disk(1).unwrap();
    assert!(disk.check_disk(1).unwrap().is_empty());
    // The untouched cluster 0 is all zeros, so every sector fails.
    let bad0 = disk.check_disk(0).unwrap();
    assert_eq!(bad0.len(), 2048);
}

#[test]
fn read_sector_reports_claimed_position() {
    let mut disk = four_cluster_disk();
    disk.fill_disk(3).unwrap();
    let sec = disk.read_sector(3, 42).unwrap();
    assert_eq!(sec.cluster_id, 3);
    assert_eq!(sec.sector_id, 42);
    assert_eq!(sec.magic, 0x434653fb);
    assert_eq!(sec.disk_size, 4 * 1024 * 1024);
}

#[test]
fn strict_format_check() {
    let mut disk = four_cluster_disk();
    disk.fill_disk(1).unwrap();
    let sec = disk.read_sector(1, 0).unwrap();
    assert!(sec.matches_format());
    // An unfilled, all-zero sector claims no format at all.
    let zero_sec = disk.read_sector(0, 0).unwrap();
    assert!(!zero_sec.matches_format());
}

#[test]
fn boundary_cluster_ids_are_refused() {
    let mut disk = four_cluster_disk();
    assert!(matches!(
        disk.fill_disk(4),
        Err(StorageError::OutOfRangeCluster)
    ));
    assert!(matches!(
        disk.fill_disk(u64::MAX),
        Err(StorageError::OutOfRangeCluster)
    ));
    assert!(matches!(
        disk.check_disk(4),
        Err(StorageError::OutOfRangeCluster)
    ));
    assert!(!disk.inject_cluster_error(4));
    assert!(!disk.inject_cluster_error(u64::MAX));
    assert!(matches!(
        disk.read_sector(4, 0),
        Err(StorageError::OutOfRangeCluster)
    ));
    assert!(matches!(
        disk.read_sector(0, 2048),
        Err(StorageError::OutOfRangeCluster)
    ));
}

#[test]
fn partial_trailing_cluster_is_ignored() {
    // 9000 sectors: 4 whole clusters plus a partial tail.
    let dev = BlockDevice::new("/dev/simnbd1", 9000).unwrap();
    let mut disk = DiskSchema::new(dev);
    assert_eq!(disk.nr_clusters(), 4);
    disk.fill_whole_disk();
    assert!(disk.check_whole_disk().is_empty());
    assert!(matches!(
        disk.fill_disk(4),
        Err(StorageError::OutOfRangeCluster)
    ));
}
