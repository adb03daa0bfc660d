use blockcheck::device::BlockDevice;
use blockcheck::errors::StorageError;

fn small_device() -> BlockDevice {
    // 8192 sectors of 512 bytes: a 4 MiB device.
    BlockDevice::new("/dev/simnbd0", 8192).unwrap()
}

#[test]
fn device_size_discovery() {
    let dev = small_device();
    assert_eq!(dev.get_disk_size(), 4 * 1024 * 1024);
}

#[test]
fn device_size_discovery_failure() {
    let r = BlockDevice::new("/dev/simnbd0", u64::MAX);
    assert!(matches!(r, Err(StorageError::SizeDiscoveryFailure)));
}

#[test]
fn device_write_read_roundtrip() {
    let mut dev = small_device();
    let data: Vec<u8> = (0..4096u32).map(|i| (i % 251) as u8).collect();
    let written = dev.write_direct_at(&data, 8192);
    assert_eq!(written, 4096);

    let mut back = vec![0u8; 4096];
    let read = dev.read_direct_at(&mut back, 8192);
    assert_eq!(read, 4096);
    assert_eq!(back, data);

    // The buffered read sees the same bytes, and needs no alignment.
    let mut mid = vec![0u8; 100];
    let n = dev.read_at(&mut mid, 8192 + 10);
    assert_eq!(n, 100);
    assert_eq!(mid[0], data[10]);

    let mut head = vec![0u8; 16];
    let n2 = dev.read(&mut head);
    assert_eq!(n2, 16);
    assert_eq!(head, vec![0u8; 16]);
}

#[test]
fn device_misaligned_length_reads_nothing() {
    let dev = small_device();
    let mut buf = vec![0u8; 100];
    assert_eq!(dev.read_direct_at(&mut buf, 0), 0);
    assert_eq!(buf, vec![0u8; 100]);
}

#[test]
fn device_misaligned_offset_reads_nothing() {
    let dev = small_device();
    let mut buf = vec![0u8; 4096];
    assert_eq!(dev.read_direct_at(&mut buf, 123), 0);
}

#[test]
fn device_misaligned_write_writes_nothing() {
    let mut dev = small_device();
    let buf = vec![7u8; 100];
    assert_eq!(dev.write_direct_at(&buf, 0), 0);
    let buf2 = vec![7u8; 4096];
    assert_eq!(dev.write_direct_at(&buf2, 10), 0);
    let mut back = vec![0u8; 4096];
    dev.read_direct_at(&mut back, 0);
    assert_eq!(back, vec![0u8; 4096]);
}

#[test]
fn device_alignment_violation_is_reported() {
    let mut dev = small_device();
    let mut buf = vec![0u8; 100];
    assert!(matches!(
        dev.try_read_direct_at(&mut buf, 0),
        Err(StorageError::AlignmentViolation)
    ));
    let mut buf2 = vec![0u8; 4096];
    assert!(matches!(
        dev.try_read_direct_at(&mut buf2, 33),
        Err(StorageError::AlignmentViolation)
    ));
    let wbuf = vec![0u8; 100];
    assert!(matches!(
        dev.try_write_direct_at(&wbuf, 0),
        Err(StorageError::AlignmentViolation)
    ));
}

#[test]
fn device_past_end_is_io_failure() {
    let mut dev = small_device();
    let size = dev.get_disk_size();
    let mut buf = vec![0u8; 4096];
    assert!(matches!(
        dev.try_read_direct_at(&mut buf, size),
        Err(StorageError::IoFailure)
    ));
    assert_eq!(dev.read_direct_at(&mut buf, size), 0);
    let wbuf = vec![0u8; 4096];
    assert!(matches!(
        dev.try_write_direct_at(&wbuf, size),
        Err(StorageError::IoFailure)
    ));
    assert!(matches!(dev.try_write_direct_at(&wbuf, 0), Ok(4096)));
}
