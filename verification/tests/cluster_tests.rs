use blockcheck::cluster::ClusterSchema;
use blockcheck::sector::SectorSchema;

#[test]
fn cluster_fill_then_check_empty() {
    let mut clu = ClusterSchema::new().with_disk_size(4 * 1024 * 1024).with_id(1);
    clu.fill();
    let bad = clu.check();
    assert!(bad.is_empty());
}

#[test]
fn cluster_geometry() {
    let clu = ClusterSchema::new();
    assert_eq!(clu.get_cluster_size(), 512 * 2 * 1024);
    assert_eq!(clu.buf.len(), 1024 * 1024);
    assert_eq!(clu.get_id(), 0);
}

#[test]
fn cluster_set_id() {
    let mut clu = ClusterSchema::new().with_id(4);
    assert_eq!(clu.get_id(), 4);
    clu.set_id(9);
    assert_eq!(clu.get_id(), 9);
}

#[test]
fn cluster_corrupt_single_sector_header() {
    let mut clu = ClusterSchema::new().with_disk_size(4 * 1024 * 1024).with_id(2);
    clu.fill();
    // Corrupt one byte inside sector 5's checksum-covered header region.
    clu.buf[5 * 512 + 20] ^= 0xff;
    let bad = clu.check();
    assert_eq!(bad, vec![5u64]);
}

#[test]
fn cluster_corrupt_single_sector_checksum_text() {
    let mut clu = ClusterSchema::new().with_disk_size(4 * 1024 * 1024).with_id(2);
    clu.fill();
    // Corrupt one byte of sector 9's stored checksum text.
    clu.buf[9 * 512 + 450] ^= 0x01;
    let bad = clu.check();
    assert_eq!(bad, vec![9u64]);
}

#[test]
fn cluster_corrupt_two_sectors_ascending() {
    let mut clu = ClusterSchema::new().with_disk_size(4 * 1024 * 1024).with_id(0);
    clu.fill();
    clu.buf[1000 * 512] ^= 0x80;
    clu.buf[3 * 512 + 100] ^= 0x80;
    let bad = clu.check();
    assert_eq!(bad, vec![3u64, 1000u64]);
}

#[test]
fn cluster_positional_binding() {
    let mut clu = ClusterSchema::new().with_disk_size(2 * 1024 * 1024).with_id(3);
    clu.fill();
    for &i in &[0u64, 1, 17, 2047] {
        let mut sec = SectorSchema::new();
        sec.deserialize(&clu.buf, (i as usize) * 512);
        assert_eq!(sec.cluster_id, 3);
        assert_eq!(sec.sector_id, i);
        assert_eq!(sec.magic, 0x434653fb);
        assert_eq!(sec.version, 1);
        assert_eq!(sec.disk_size, 2 * 1024 * 1024);
    }
}

#[test]
fn cluster_inject_error_corrupts_and_is_detected() {
    let mut clu = ClusterSchema::new().with_disk_size(4 * 1024 * 1024).with_id(1);
    clu.fill();
    let before = clu.buf.clone();
    assert!(clu.inject_error());
    assert_eq!(clu.buf.len(), before.len());
    assert!(clu.buf != before);
    let bad = clu.check();
    assert!(!bad.is_empty());
}
