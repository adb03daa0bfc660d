use blockcheck::sector::SectorSchema;

fn fixed_time_record() -> SectorSchema {
    let mut sec = SectorSchema::new();
    sec.local_time = vec![0x54u8; 68];
    sec
}

#[test]
fn sector_roundtrip() {
    let mut sec = SectorSchema::new()
        .with_disk_size(4 * 1024 * 1024)
        .with_cluster_size(512 * 2 * 1024)
        .with_cluster_id(3);
    sec.sector_id = 7;
    sec.update_hash();

    let mut buf = vec![0u8; 512];
    sec.serialize(&mut buf, 0);

    let mut sec2 = SectorSchema::new();
    sec2.deserialize(&buf, 0);

    assert_eq!(sec2.magic, 0x434653fb);
    assert_eq!(sec2.version, 1);
    assert_eq!(sec2.flags, 0);
    assert_eq!(sec2.cluster_id, 3);
    assert_eq!(sec2.sector_id, 7);
    assert_eq!(sec2.disk_size, 4 * 1024 * 1024);
    assert_eq!(sec2.get_sector_size(), 512);
    assert_eq!(sec2.local_time, sec.local_time);
    assert_eq!(sec2.sha256, sec.sha256);

    let mut checker = SectorSchema::new();
    assert!(checker.check(&buf, 0));
}

#[test]
fn sector_known_hash() {
    // SHA-256 of the 444 header bytes of a fresh record whose time field is
    // 68 'T' bytes, written out as 64 lowercase hex digits.
    let mut sec = fixed_time_record();
    sec.update_hash();
    let expected = b"1ebccd3a0ceffa2f954084d9b45b78e077c3f0c8fcdc79f23d6cfa087a514317";
    assert_eq!(sec.sha256, expected.to_vec());
}

#[test]
fn sector_roundtrip_at_offset() {
    let mut sec = SectorSchema::new().with_cluster_id(11);
    sec.sector_id = 2;
    sec.update_hash();
    let mut buf = vec![0u8; 2048];
    sec.serialize(&mut buf, 1024);
    let mut checker = SectorSchema::new();
    assert!(checker.check(&buf, 1024));
    assert_eq!(checker.cluster_id, 11);
    assert_eq!(checker.sector_id, 2);
    // The neighbouring sectors were never written.
    assert!(!checker.check(&buf, 0));
    assert!(!checker.check(&buf, 512));
}

#[test]
fn sector_check_detects_header_change() {
    let mut sec = fixed_time_record();
    sec.update_hash();
    let mut buf = vec![0u8; 512];
    sec.serialize(&mut buf, 0);

    // Flip one byte inside the checksum-covered header region.
    buf[20] ^= 0xff;
    let mut checker = SectorSchema::new();
    assert!(!checker.check(&buf, 0));
}

#[test]
fn sector_check_detects_checksum_change() {
    let mut sec = fixed_time_record();
    sec.update_hash();
    let mut buf = vec![0u8; 512];
    sec.serialize(&mut buf, 0);

    // Corrupt one byte of the stored checksum text.
    buf[444] ^= 0x01;
    let mut checker = SectorSchema::new();
    assert!(!checker.check(&buf, 0));

    // Corrupt one byte of the checksum field's zero padding instead.
    let mut buf2 = vec![0u8; 512];
    sec.serialize(&mut buf2, 0);
    buf2[510] = 0x41;
    let mut checker2 = SectorSchema::new();
    assert!(!checker2.check(&buf2, 0));
}

#[test]
fn sector_update_time_keeps_width() {
    let mut sec = SectorSchema::new();
    assert_eq!(sec.local_time.len(), 68);
    sec.update_time();
    assert_eq!(sec.local_time.len(), 68);
}

#[test]
fn sector_builders_configure_fields() {
    let sec = SectorSchema::new()
        .with_disk_size(99)
        .with_cluster_size(77)
        .with_cluster_id(5);
    assert_eq!(sec.disk_size, 99);
    assert_eq!(sec.cluster_id, 5);
    assert_eq!(sec.get_sector_size(), 512);
    assert_eq!(sec.reversed, vec![0u8; 320]);
    assert!(sec.sha256.is_empty());
}
