//! The fixed 512-byte on-disk sector record: a big-endian header, a
//! fixed-width local-time text, reserved padding, and a trailing checksum
//! field holding the hex text of a 256-bit digest of the header region.

use vstd::prelude::*;

use sha2::Digest;

use crate::bytes::be_u32_bytes;
use crate::bytes::be_u64_bytes;
use crate::bytes::be_u32_of;
use crate::bytes::be_u64_of;
use crate::bytes::zero_bytes;
use crate::bytes::trim_zeros;
use crate::bytes::lemma_be_u32_roundtrip;
use crate::bytes::lemma_be_u64_roundtrip;
use crate::bytes::lemma_trim_zeros_characterization;
use crate::bytes::push_u32_be;
use crate::bytes::push_u64_be;
use crate::bytes::push_bytes;
use crate::bytes::push_zeros;
use crate::bytes::write_bytes_at;
use crate::bytes::read_bytes;
use crate::bytes::read_u32_be;
use crate::bytes::read_u64_be;
use crate::bytes::trim_trailing_zeros;
use crate::bytes::bytes_eq;

verus! {

/// Identifies the record format on disk.
pub const MAGIC: u32 = 0x434653fb;

/// Layout version of the record format.
pub const VERSION: u32 = 1;

/// Every record occupies exactly this many bytes on disk.
pub const SECTOR_SIZE: u64 = 512;

/// Width of the two text fields (local time and checksum), in bytes.
pub const MAX_STRING_LENGTH: usize = 68;

/// Width of the checksum-covered header region: everything before the
/// trailing checksum field.
pub const HEAD_LENGTH: usize = 444;

/// The mathematical value of a sector record.
#[verifier::ext_equal]
pub ghost struct SectorModel {
    pub magic: u32,
    pub version: u32,
    pub flags: u64,
    pub cluster_id: u64,
    pub sector_id: u64,
    pub disk_size: u64,
    pub cluster_size: u64,
    pub sector_size: u64,
    pub local_time: Seq<u8>,
    pub reversed: Seq<u8>,
    pub sha256: Seq<u8>,
}

impl SectorModel {
    /// Well-formedness: the text fields have their fixed widths, and the
    /// stored checksum is already trimmed of trailing zero padding.
    pub open spec fn wf(self) -> bool {
        &&& self.local_time.len() == 68
        &&& self.reversed.len() == 320
        &&& self.sha256.len() <= 68
        &&& (self.sha256.len() > 0 ==> self.sha256[self.sha256.len() - 1] != 0)
    }
}

/// The 444 checksum-covered header bytes of a record: all integer fields in
/// big-endian order, then the local-time text, then the reserved region.
pub open spec fn spec_head_bytes(m: SectorModel) -> Seq<u8> {
    be_u32_bytes(m.magic) + be_u32_bytes(m.version) + be_u64_bytes(m.flags) + be_u64_bytes(
        m.cluster_id,
    ) + be_u64_bytes(m.sector_id) + be_u64_bytes(m.disk_size) + be_u64_bytes(m.cluster_size)
        + be_u64_bytes(m.sector_size) + m.local_time + m.reversed
}

/// A text field padded with zero bytes to its fixed width of 68.
pub open spec fn pad_text(s: Seq<u8>) -> Seq<u8> {
    s + zero_bytes(68 - s.len())
}

/// The full 512 serialized bytes of a record.
pub open spec fn spec_serialize(m: SectorModel) -> Seq<u8> {
    spec_head_bytes(m) + pad_text(m.sha256)
}

/// The record decoded from 512 bytes. The checksum text is trimmed of its
/// trailing zero padding.
pub open spec fn spec_deserialize(s: Seq<u8>) -> SectorModel
    recommends
        s.len() == 512,
{
    SectorModel {
        magic: be_u32_of(s.subrange(0, 4)),
        version: be_u32_of(s.subrange(4, 8)),
        flags: be_u64_of(s.subrange(8, 16)),
        cluster_id: be_u64_of(s.subrange(16, 24)),
        sector_id: be_u64_of(s.subrange(24, 32)),
        disk_size: be_u64_of(s.subrange(32, 40)),
        cluster_size: be_u64_of(s.subrange(40, 48)),
        sector_size: be_u64_of(s.subrange(48, 56)),
        local_time: s.subrange(56, 124),
        reversed: s.subrange(124, 444),
        sha256: trim_zeros(s.subrange(444, 512)),
    }
}

/// Whether the 512 bytes of a sector verify: the stored checksum text,
/// trimmed of zero padding, equals the digest text of the header region.
pub open spec fn spec_verify_ok(s: Seq<u8>) -> bool
    recommends
        s.len() == 512,
{
    trim_zeros(s.subrange(444, 512)) == sha256_hex_of(s.subrange(0, 444))
}

/// The lowercase-hex text of the 256-bit digest of `data`: a function of
/// `data` alone, named here and computed only by the digest wrapper below.
pub uninterp spec fn sha256_hex_of(data: Seq<u8>) -> Seq<u8>;

/// Whether `b` is the ASCII code of a lowercase hexadecimal digit.
pub open spec fn is_hex_digit(b: u8) -> bool {
    (48 <= b && b <= 57) || (97 <= b && b <= 102)
}

/// Relies on `sha2::Sha256`: the digest of a byte string is 32 bytes and a
/// function of those bytes alone, and `{:x}` formats it as exactly 64
/// lowercase hexadecimal ASCII digits.
#[verifier::external_body]
fn sha256_hex(data: &Vec<u8>) -> (r: Vec<u8>)
    ensures
        r@ == sha256_hex_of(data@),
        r@.len() == 64,
        forall|i: int| 0 <= i < r@.len() ==> is_hex_digit(#[trigger] r@[i]),
{
    let mut hasher = sha2::Sha256::new();
    hasher.update(data);
    format!("{:x}", hasher.finalize()).into_bytes()
}

/// Relies on `chrono::Local::now`: the current local time rendered as text.
/// Nothing is promised of the value; callers fit it to the record's
/// fixed-width field themselves.
#[verifier::external_body]
fn local_time_text() -> Vec<u8> {
    chrono::Local::now().to_string().into_bytes()
}

/// A fixed 512-byte on-disk record: header fields, a local-time stamp, and a
/// trailing checksum over the header region.
pub struct SectorSchema {
    pub magic: u32,
    pub version: u32,
    pub flags: u64,
    pub cluster_id: u64,
    pub sector_id: u64,
    pub disk_size: u64,
    cluster_size: u64,
    sector_size: u64,
    pub local_time: Vec<u8>,
    pub reversed: Vec<u8>,
    pub sha256: Vec<u8>,
}

impl View for SectorSchema {
    type V = SectorModel;

    closed spec fn view(&self) -> SectorModel {
        SectorModel {
            magic: self.magic,
            version: self.version,
            flags: self.flags,
            cluster_id: self.cluster_id,
            sector_id: self.sector_id,
            disk_size: self.disk_size,
            cluster_size: self.cluster_size,
            sector_size: self.sector_size,
            local_time: self.local_time@,
            reversed: self.reversed@,
            sha256: self.sha256@,
        }
    }
}

/// Truncates or zero-pads `v` to the fixed text-field width of 68 bytes.
fn fit_text_field(v: Vec<u8>) -> (r: Vec<u8>)
    ensures
        r@ == (if v@.len() > 68 {
            v@.subrange(0, 68)
        } else {
            v@ + zero_bytes(68 - v@.len())
        }),
        r@.len() == 68,
{
    let mut r = v;
    if r.len() > MAX_STRING_LENGTH {
        r.truncate(MAX_STRING_LENGTH);
    } else {
        let missing = MAX_STRING_LENGTH - r.len();
        push_zeros(&mut r, missing);
    }
    r
}

impl SectorSchema {
    /// A fresh record: format constants set, addressing fields zeroed, the
    /// sector size fixed at 512, and the current local time stamped in.
    pub fn new() -> (r: Self)
        ensures
            r@.magic == MAGIC,
            r@.version == VERSION,
            r@.flags == 0,
            r@.cluster_id == 0,
            r@.sector_id == 0,
            r@.disk_size == 0,
            r@.cluster_size == 0,
            r@.sector_size == SECTOR_SIZE,
            r@.reversed == zero_bytes(320),
            r@.sha256 == Seq::<u8>::empty(),
            r@.wf(),
    {
        let now = local_time_text();
        let local_time = fit_text_field(now);
        let mut reversed: Vec<u8> = Vec::new();
        push_zeros(&mut reversed, 320);
        let r = SectorSchema {
            magic: MAGIC,
            version: VERSION,
            flags: 0,
            cluster_id: 0,
            sector_id: 0,
            disk_size: 0,
            cluster_size: 0,
            sector_size: SECTOR_SIZE,
            local_time,
            reversed,
            sha256: Vec::new(),
        };
        assert(r@.reversed =~= zero_bytes(320));
        assert(r@.sha256 =~= Seq::<u8>::empty());
        r
    }

    /// Sets the disk-size field, for builder-style construction.
    pub fn with_disk_size(self, disk_size: u64) -> (r: Self)
        ensures
            r@ == (SectorModel { disk_size, ..self@ }),
    {
        let mut r = self;
        r.disk_size = disk_size;
        r
    }

    /// Sets the cluster-size field, for builder-style construction.
    pub fn with_cluster_size(self, cluster_size: u64) -> (r: Self)
        ensures
            r@ == (SectorModel { cluster_size, ..self@ }),
    {
        let mut r = self;
        r.cluster_size = cluster_size;
        r
    }

    /// Sets the cluster-id field, for builder-style construction.
    pub fn with_cluster_id(self, cluster_id: u64) -> (r: Self)
        ensures
            r@ == (SectorModel { cluster_id, ..self@ }),
    {
        let mut r = self;
        r.cluster_id = cluster_id;
        r
    }

    /// Sets the positional sector-id field.
    pub fn set_sector_id(&mut self, sector_id: u64)
        ensures
            final(self)@ == (SectorModel { sector_id, ..old(self)@ }),
    {
        self.sector_id = sector_id;
    }

    /// Strict-mode format check: whether the decoded record carries this
    /// format's magic and layout version. Decoding itself never demands it.
    pub fn matches_format(&self) -> (r: bool)
        ensures
            r == (self@.magic == MAGIC && self@.version == VERSION),
    {
        self.magic == MAGIC && self.version == VERSION
    }

    /// The fixed per-sector size in bytes.
    pub fn get_sector_size(&self) -> (r: u64)
        ensures
            r == self@.sector_size,
    {
        self.sector_size
    }

    /// The 444 header bytes, as serialized and as covered by the checksum.
    fn head_bytes_vec(&self) -> (r: Vec<u8>)
        requires
            self@.wf(),
        ensures
            r@ == spec_head_bytes(self@),
            r@.len() == 444,
    {
        let mut v: Vec<u8> = Vec::new();
        push_u32_be(&mut v, self.magic);
        push_u32_be(&mut v, self.version);
        push_u64_be(&mut v, self.flags);
        push_u64_be(&mut v, self.cluster_id);
        push_u64_be(&mut v, self.sector_id);
        push_u64_be(&mut v, self.disk_size);
        push_u64_be(&mut v, self.cluster_size);
        push_u64_be(&mut v, self.sector_size);
        push_bytes(&mut v, &self.local_time);
        push_bytes(&mut v, &self.reversed);
        assert(v@ =~= spec_head_bytes(self@));
        v
    }

    /// Writes the header region into `buf[pos .. pos + 444)`.
    pub fn head_to_vec(&self, buf: &mut Vec<u8>, pos: usize)
        requires
            self@.wf(),
            pos + 444 <= old(buf)@.len(),
        ensures
            final(buf)@.len() == old(buf)@.len(),
            final(buf)@.subrange(pos as int, pos + 444) == spec_head_bytes(self@),
            forall|k: int|
                0 <= k < old(buf)@.len() && !(pos <= k < pos + 444) ==> final(buf)@[k] == old(
                    buf,
                )@[k],
    {
        let head = self.head_bytes_vec();
        write_bytes_at(buf, pos, &head);
    }

    /// Recomputes the checksum text over the current header bytes and stores
    /// it in the checksum field.
    pub fn update_hash(&mut self)
        requires
            old(self)@.wf(),
        ensures
            final(self)@ == (SectorModel {
                sha256: sha256_hex_of(spec_head_bytes(old(self)@)),
                ..old(self)@
            }),
            final(self)@.sha256.len() == 64,
            forall|i: int| 0 <= i < 64 ==> is_hex_digit(#[trigger] final(self)@.sha256[i]),
            final(self)@.wf(),
    {
        let head = self.head_bytes_vec();
        self.sha256 = sha256_hex(&head);
    }

    /// Restamps the local-time field with the current local time.
    pub fn update_time(&mut self)
        ensures
            final(self)@ == (SectorModel {
                local_time: final(self)@.local_time,
                ..old(self)@
            }),
            final(self)@.local_time.len() == 68,
    {
        let now = local_time_text();
        self.local_time = fit_text_field(now);
    }

    /// Serializes the whole 512-byte record into `buf[pos .. pos + 512)`:
    /// the header region followed by the zero-padded checksum text.
    pub fn serialize(&self, buf: &mut Vec<u8>, pos: usize)
        requires
            self@.wf(),
            pos + 512 <= old(buf)@.len(),
        ensures
            final(buf)@.len() == old(buf)@.len(),
            final(buf)@.subrange(pos as int, pos + 512) == spec_serialize(self@),
            forall|k: int|
                0 <= k < old(buf)@.len() && !(pos <= k < pos + 512) ==> final(buf)@[k] == old(
                    buf,
                )@[k],
    {
        let total = buf.len();
        self.head_to_vec(buf, pos);
        let mut tail: Vec<u8> = Vec::new();
        push_bytes(&mut tail, &self.sha256);
        let missing = MAX_STRING_LENGTH - self.sha256.len();
        push_zeros(&mut tail, missing);
        assert(tail@ =~= pad_text(self@.sha256));
        write_bytes_at(buf, pos + HEAD_LENGTH, &tail);
        assert(final(buf)@.subrange(pos as int, pos + 512) =~= spec_serialize(self@));
    }

    /// Decodes every field of the record from `buf[pos .. pos + 512)`,
    /// trimming the zero padding of the checksum text.
    pub fn deserialize(&mut self, buf: &Vec<u8>, pos: usize)
        requires
            pos + 512 <= buf@.len(),
        ensures
            final(self)@ == spec_deserialize(buf@.subrange(pos as int, pos + 512)),
            final(self)@.wf(),
    {
        let ghost s = buf@.subrange(pos as int, pos + 512);
        let total = buf.len();
        self.magic = read_u32_be(buf, pos);
        self.version = read_u32_be(buf, pos + 4);
        self.flags = read_u64_be(buf, pos + 8);
        self.cluster_id = read_u64_be(buf, pos + 16);
        self.sector_id = read_u64_be(buf, pos + 24);
        self.disk_size = read_u64_be(buf, pos + 32);
        self.cluster_size = read_u64_be(buf, pos + 40);
        self.sector_size = read_u64_be(buf, pos + 48);
        self.local_time = read_bytes(buf, pos + 56, MAX_STRING_LENGTH);
        self.reversed = read_bytes(buf, pos + 124, 320);
        self.sha256 = trim_trailing_zeros(buf, pos + HEAD_LENGTH, MAX_STRING_LENGTH);
        proof {
            assert(buf@.subrange(pos as int, pos + 4) =~= s.subrange(0, 4));
            assert(buf@.subrange(pos + 4, pos + 8) =~= s.subrange(4, 8));
            assert(buf@.subrange(pos + 8, pos + 16) =~= s.subrange(8, 16));
            assert(buf@.subrange(pos + 16, pos + 24) =~= s.subrange(16, 24));
            assert(buf@.subrange(pos + 24, pos + 32) =~= s.subrange(24, 32));
            assert(buf@.subrange(pos + 32, pos + 40) =~= s.subrange(32, 40));
            assert(buf@.subrange(pos + 40, pos + 48) =~= s.subrange(40, 48));
            assert(buf@.subrange(pos + 48, pos + 56) =~= s.subrange(48, 56));
            assert(buf@.subrange(pos + 56, pos + 124) =~= s.subrange(56, 124));
            assert(buf@.subrange(pos + 124, pos + 444) =~= s.subrange(124, 444));
            assert(buf@.subrange(pos + 444, pos + 512) =~= s.subrange(444, 512));
            assert(self@ =~= spec_deserialize(s));
            crate::bytes::lemma_trim_zeros_props(s.subrange(444, 512));
        }
    }

    /// Recomputes the digest over the header region at `pos`, decodes the
    /// record, and reports whether the stored checksum matches. The record is
    /// decoded whether or not verification succeeds, so callers can inspect
    /// the claimed addressing metadata of a bad sector.
    pub fn check(&mut self, buf: &Vec<u8>, pos: usize) -> (ok: bool)
        requires
            pos + 512 <= buf@.len(),
        ensures
            final(self)@ == spec_deserialize(buf@.subrange(pos as int, pos + 512)),
            final(self)@.wf(),
            ok == spec_verify_ok(buf@.subrange(pos as int, pos + 512)),
    {
        let ghost s = buf@.subrange(pos as int, pos + 512);
        let head = read_bytes(buf, pos, HEAD_LENGTH);
        let computed = sha256_hex(&head);
        self.deserialize(buf, pos);
        let ok = bytes_eq(&self.sha256, &computed);
        proof {
            assert(head@ =~= s.subrange(0, 444));
        }
        ok
    }
}

/// Corruption confined to the trailing checksum field is always caught:
/// if the header region of a verifying sector is unchanged but the stored
/// checksum text (trimmed of zero padding) changed, verification fails.
pub proof fn lemma_checksum_text_corruption_detected(sb0: Seq<u8>, sb1: Seq<u8>)
    requires
        sb0.len() == 512,
        sb1.len() == 512,
        spec_verify_ok(sb0),
        sb0.subrange(0, 444) == sb1.subrange(0, 444),
        trim_zeros(sb1.subrange(444, 512)) != trim_zeros(sb0.subrange(444, 512)),
    ensures
        !spec_verify_ok(sb1),
{
}

/// Serializing a well-formed record and decoding those bytes reproduces every
/// field exactly; and if the record's stored checksum is the digest text of
/// its own header bytes, the serialized sector verifies.
pub proof fn lemma_serialize_deserialize(m: SectorModel)
    requires
        m.wf(),
    ensures
        spec_deserialize(spec_serialize(m)) == m,
        m.sha256 == sha256_hex_of(spec_head_bytes(m)) ==> spec_verify_ok(spec_serialize(m)),
{
    let s = spec_serialize(m);
    assert(s.len() == 512);
    assert(s.subrange(0, 4) =~= be_u32_bytes(m.magic));
    assert(s.subrange(4, 8) =~= be_u32_bytes(m.version));
    assert(s.subrange(8, 16) =~= be_u64_bytes(m.flags));
    assert(s.subrange(16, 24) =~= be_u64_bytes(m.cluster_id));
    assert(s.subrange(24, 32) =~= be_u64_bytes(m.sector_id));
    assert(s.subrange(32, 40) =~= be_u64_bytes(m.disk_size));
    assert(s.subrange(40, 48) =~= be_u64_bytes(m.cluster_size));
    assert(s.subrange(48, 56) =~= be_u64_bytes(m.sector_size));
    assert(s.subrange(56, 124) =~= m.local_time);
    assert(s.subrange(124, 444) =~= m.reversed);
    assert(s.subrange(444, 512) =~= pad_text(m.sha256));
    lemma_be_u32_roundtrip(m.magic);
    lemma_be_u32_roundtrip(m.version);
    lemma_be_u64_roundtrip(m.flags);
    lemma_be_u64_roundtrip(m.cluster_id);
    lemma_be_u64_roundtrip(m.sector_id);
    lemma_be_u64_roundtrip(m.disk_size);
    lemma_be_u64_roundtrip(m.cluster_size);
    lemma_be_u64_roundtrip(m.sector_size);
    lemma_trim_zeros_characterization(pad_text(m.sha256), m.sha256.len() as int);
    assert(pad_text(m.sha256).subrange(0, m.sha256.len() as int) =~= m.sha256);
    assert(spec_deserialize(s) =~= m);
    assert(s.subrange(0, 444) =~= spec_head_bytes(m));
}

} // verus!
