//! A block-device integrity engine: it writes self-describing, checksummed
//! sector records across a device, re-reads and verifies them, and can
//! deliberately corrupt a region to exercise the detection path.

pub mod bytes;
pub mod cluster;
pub mod device;
pub mod disk;
pub mod errors;
pub mod options;
pub mod sector;
