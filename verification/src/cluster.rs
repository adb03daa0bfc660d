//! An in-memory cluster: 2048 contiguous 512-byte sectors, filled with
//! fresh records, scanned for corrupted sectors, or deliberately corrupted
//! within one sector.

use vstd::prelude::*;

use rand::Rng;

use crate::bytes::push_zeros;
use crate::bytes::zero_bytes;
use crate::sector::SectorSchema;
use crate::sector::spec_head_bytes;
use crate::sector::spec_deserialize;
use crate::sector::spec_serialize;
use crate::sector::spec_verify_ok;
use crate::sector::lemma_serialize_deserialize;
use crate::sector::sha256_hex_of;
use crate::sector::MAGIC;
use crate::sector::VERSION;

verus! {

/// One cluster is 2048 sectors of 512 bytes: 1 MiB.
pub const CLUSTER_SIZE: u64 = 512 * 2 * 1024;

/// Number of sectors in one cluster.
pub const NR_SECTORS: usize = 2048;

/// The 512 bytes of sector `i` within a cluster image.
pub open spec fn sector_bytes(b: Seq<u8>, i: int) -> Seq<u8> {
    b.subrange(512 * i, 512 * i + 512)
}

/// Whether the 512 bytes `sb` hold a record that verifies and is bound to
/// position (`cluster_id`, `sector_id`) with the given geometry.
pub open spec fn filled_sector(sb: Seq<u8>, disk_size: u64, cluster_id: u64, sector_id: u64) -> bool {
    let m = spec_deserialize(sb);
    &&& spec_verify_ok(sb)
    &&& m.magic == MAGIC
    &&& m.version == VERSION
    &&& m.flags == 0
    &&& m.cluster_id == cluster_id
    &&& m.sector_id == sector_id
    &&& m.disk_size == disk_size
    &&& m.cluster_size == CLUSTER_SIZE
    &&& m.sector_size == 512
}

/// Whether a whole cluster image is freshly filled for position `cluster_id`.
pub open spec fn cluster_filled(b: Seq<u8>, disk_size: u64, cluster_id: u64) -> bool {
    &&& b.len() == CLUSTER_SIZE
    &&& forall|i: int|
        0 <= i < 2048 ==> filled_sector(#[trigger] sector_bytes(b, i), disk_size, cluster_id, i as u64)
}

/// The ascending indices of the sectors among the first `n` whose checksum
/// does not verify.
pub open spec fn corrupt_upto(b: Seq<u8>, n: int) -> Seq<u64>
    decreases n,
{
    if n <= 0 {
        Seq::empty()
    } else if spec_verify_ok(sector_bytes(b, n - 1)) {
        corrupt_upto(b, n - 1)
    } else {
        corrupt_upto(b, n - 1).push((n - 1) as u64)
    }
}

/// The ascending indices of every corrupted sector of a cluster image.
pub open spec fn corrupt_sectors(b: Seq<u8>) -> Seq<u64> {
    corrupt_upto(b, 2048)
}

/// Whether `b1` is `b0` with the byte range `[a, e)` of sector `s`
/// overwritten, every byte in that range changed and no byte outside it.
pub open spec fn corruption_range(b0: Seq<u8>, b1: Seq<u8>, s: int, a: int, e: int) -> bool {
    &&& 0 <= s < 2048
    &&& 0 <= a < e <= 512
    &&& (forall|k: int| 0 <= k < b0.len() && !(512 * s + a <= k < 512 * s + e) ==> b1[k] == b0[k])
    &&& (forall|k: int| 512 * s + a <= k < 512 * s + e ==> b1[k] != b0[k])
}

/// Whether `b1` is `b0` with exactly one non-empty byte range inside one
/// sector overwritten, every byte in that range changed.
pub open spec fn corrupted_within_one_sector(b0: Seq<u8>, b1: Seq<u8>) -> bool {
    &&& b1.len() == b0.len()
    &&& exists|s: int, a: int, e: int| #[trigger] corruption_range(b0, b1, s, a, e)
}

/// Relies on `rand::Rng::gen_range` (rand crate): the sample lies within the
/// given non-empty range. Which value comes back is arbitrary.
#[verifier::external_body]
fn rand_below(bound: u64) -> (r: u64)
    requires
        bound > 0,
    ensures
        r < bound,
{
    rand::thread_rng().gen_range(0..bound)
}

/// Relies on `rand::Rng::gen_range`: an arbitrary byte value.
#[verifier::external_body]
fn rand_byte() -> u8 {
    rand::thread_rng().gen_range(0..=255u8)
}

/// A 1 MiB in-memory image of one cluster, with the disk geometry and the
/// cluster's position.
pub struct ClusterSchema {
    pub buf: Vec<u8>,
    pub disk_size: u64,
    pub id: u64,
}

impl ClusterSchema {
    /// The buffer always spans exactly one cluster.
    pub open spec fn wf(&self) -> bool {
        self.buf@.len() == CLUSTER_SIZE
    }

    /// The disk size this cluster was configured with.
    pub open spec fn spec_disk_size(&self) -> u64 {
        self.disk_size
    }

    /// The cluster id this cluster was configured with.
    pub open spec fn spec_id(&self) -> u64 {
        self.id
    }

    /// A zero-initialized cluster image.
    pub fn new() -> (r: Self)
        ensures
            r.wf(),
            r.buf@ == zero_bytes(CLUSTER_SIZE as int),
            r.spec_disk_size() == 0,
            r.spec_id() == 0,
    {
        let mut buf: Vec<u8> = Vec::new();
        push_zeros(&mut buf, CLUSTER_SIZE as usize);
        assert(buf@ =~= zero_bytes(CLUSTER_SIZE as int));
        ClusterSchema { buf, disk_size: 0, id: 0 }
    }

    /// Sets the disk-size context, for builder-style construction.
    pub fn with_disk_size(self, disk_size: u64) -> (r: Self)
        ensures
            r.buf@ == self.buf@,
            r.spec_disk_size() == disk_size,
            r.spec_id() == self.spec_id(),
    {
        let mut r = self;
        r.disk_size = disk_size;
        r
    }

    /// Sets the cluster id, for builder-style construction.
    pub fn with_id(self, id: u64) -> (r: Self)
        ensures
            r.buf@ == self.buf@,
            r.spec_disk_size() == self.spec_disk_size(),
            r.spec_id() == id,
    {
        let mut r = self;
        r.id = id;
        r
    }

    /// Sets the cluster id in place.
    pub fn set_id(&mut self, id: u64)
        ensures
            final(self).buf@ == old(self).buf@,
            final(self).spec_disk_size() == old(self).spec_disk_size(),
            final(self).spec_id() == id,
    {
        self.id = id;
    }

    /// The configured cluster id.
    pub fn get_id(&self) -> (r: u64)
        ensures
            r == self.spec_id(),
    {
        self.id
    }

    /// The fixed cluster size in bytes.
    pub fn get_cluster_size(&self) -> (r: u64)
        ensures
            r == CLUSTER_SIZE,
    {
        CLUSTER_SIZE
    }

    /// Fills every sector slot in order with a fresh record bound to this
    /// cluster's id, the sector's own index, and the disk geometry, each with
    /// a valid checksum.
    pub fn fill(&mut self)
        requires
            old(self).wf(),
        ensures
            final(self).wf(),
            final(self).spec_disk_size() == old(self).spec_disk_size(),
            final(self).spec_id() == old(self).spec_id(),
            cluster_filled(final(self).buf@, old(self).spec_disk_size(), old(self).spec_id()),
    {
        let ghost gds = self.disk_size;
        let ghost gid = self.id;
        let mut sec = SectorSchema::new().with_disk_size(self.disk_size).with_cluster_size(
            CLUSTER_SIZE,
        ).with_cluster_id(self.id);
        let mut i: usize = 0;
        while i < NR_SECTORS
            invariant
                i <= 2048,
                self.buf@.len() == CLUSTER_SIZE,
                self.disk_size == gds,
                self.id == gid,
                sec@.wf(),
                sec@.magic == MAGIC,
                sec@.version == VERSION,
                sec@.flags == 0,
                sec@.cluster_id == gid,
                sec@.disk_size == gds,
                sec@.cluster_size == CLUSTER_SIZE,
                sec@.sector_size == 512,
                forall|j: int|
                    0 <= j < i ==> filled_sector(
                        #[trigger] sector_bytes(self.buf@, j),
                        gds,
                        gid,
                        j as u64,
                    ),
            decreases NR_SECTORS - i,
        {
            sec.set_sector_id(i as u64);
            let ghost pre = sec@;
            sec.update_hash();
            let ghost prev = self.buf@;
            sec.serialize(&mut self.buf, 512 * i);
            proof {
                lemma_serialize_deserialize(sec@);
                assert(spec_head_bytes(sec@) == spec_head_bytes(pre));
                assert(sec@.sha256 == sha256_hex_of(spec_head_bytes(sec@)));
                assert(sector_bytes(self.buf@, i as int) =~= spec_serialize(sec@));
                assert(filled_sector(sector_bytes(self.buf@, i as int), gds, gid, i as u64));
                assert forall|j: int| 0 <= j < i implies filled_sector(
                    #[trigger] sector_bytes(self.buf@, j),
                    gds,
                    gid,
                    j as u64,
                ) by {
                    assert(512 * j + 512 <= 512 * (i as int));
                    assert forall|t: int| 0 <= t < 512 implies #[trigger] self.buf@[512 * j + t]
                        == prev[512 * j + t] by {}
                    assert(sector_bytes(self.buf@, j) =~= sector_bytes(prev, j));
                    assert(filled_sector(sector_bytes(prev, j), gds, gid, j as u64));
                }
            }
            i = i + 1;
        }
    }

    /// Verifies every sector in order and returns the ascending indices of
    /// those whose checksum does not match.
    pub fn check(&self) -> (r: Vec<u64>)
        requires
            self.wf(),
        ensures
            r@ == corrupt_sectors(self.buf@),
    {
        let mut bad: Vec<u64> = Vec::new();
        let mut sec = SectorSchema::new();
        let mut i: usize = 0;
        while i < NR_SECTORS
            invariant
                i <= 2048,
                self.buf@.len() == CLUSTER_SIZE,
                bad@ == corrupt_upto(self.buf@, i as int),
            decreases NR_SECTORS - i,
        {
            let ok = sec.check(&self.buf, 512 * i);
            proof {
                assert(self.buf@.subrange(512 * i as int, 512 * i + 512) =~= sector_bytes(
                    self.buf@,
                    i as int,
                ));
            }
            if !ok {
                bad.push(i as u64);
            }
            i = i + 1;
        }
        bad
    }

    /// Picks one sector and a non-empty byte range within it at random, and
    /// overwrites every byte of the range with a value that differs from the
    /// byte it replaces. Always reports success.
    pub fn inject_error(&mut self) -> (r: bool)
        requires
            old(self).wf(),
        ensures
            r == true,
            final(self).wf(),
            final(self).spec_disk_size() == old(self).spec_disk_size(),
            final(self).spec_id() == old(self).spec_id(),
            corrupted_within_one_sector(old(self).buf@, final(self).buf@),
    {
        let sector_id = rand_below(2048) as usize;
        let r1 = rand_below(512) as usize;
        let r2 = rand_below(512) as usize;
        let a = if r1 <= r2 { r1 } else { r2 };
        let e0 = if r1 <= r2 { r2 } else { r1 };
        let e = if a == e0 { e0 + 1 } else { e0 };
        let start = sector_id * 512;
        let mut k = a;
        while k < e
            invariant
                a <= k <= e,
                e <= 512,
                sector_id < 2048,
                start == sector_id * 512,
                self.buf@.len() == CLUSTER_SIZE,
                self.disk_size == old(self).spec_disk_size(),
                self.id == old(self).spec_id(),
                forall|t: int|
                    0 <= t < CLUSTER_SIZE && !(start + a <= t < start + k) ==> self.buf@[t] == old(
                        self,
                    ).buf@[t],
                forall|t: int| start + a <= t < start + k ==> self.buf@[t] != old(self).buf@[t],
            decreases e - k,
        {
            let idx = start + k;
            let prev_byte = self.buf[idx];
            let fresh = rand_byte();
            let written = if fresh == prev_byte {
                fresh ^ 1
            } else {
                fresh
            };
            proof {
                let pb = prev_byte;
                assert(pb ^ 1 != pb) by (bit_vector);
            }
            self.buf.set(idx, written);
            k = k + 1;
        }
        proof {
            assert(corruption_range(old(self).buf@, self.buf@, sector_id as int, a as int, e as int));
        }
        true
    }
}

/// Every record of a freshly filled cluster verifies, so a scan reports no
/// corrupted sector at all.
pub proof fn lemma_filled_check_empty(b: Seq<u8>, disk_size: u64, cluster_id: u64)
    requires
        cluster_filled(b, disk_size, cluster_id),
    ensures
        corrupt_sectors(b) == Seq::<u64>::empty(),
{
    lemma_all_ok_upto_empty(b, disk_size, cluster_id, 2048);
}

proof fn lemma_all_ok_upto_empty(b: Seq<u8>, disk_size: u64, cluster_id: u64, n: int)
    requires
        cluster_filled(b, disk_size, cluster_id),
        n <= 2048,
    ensures
        corrupt_upto(b, n) == Seq::<u64>::empty(),
    decreases n,
{
    if n > 0 {
        assert(filled_sector(sector_bytes(b, n - 1), disk_size, cluster_id, (n - 1) as u64));
        lemma_all_ok_upto_empty(b, disk_size, cluster_id, n - 1);
    }
}

/// A scan reports exactly the sectors that fail verification: membership in
/// the result characterizes corruption.
pub proof fn lemma_check_complete(b: Seq<u8>)
    ensures
        forall|x: u64|
            #[trigger] corrupt_sectors(b).contains(x) <==> (x < 2048 && !spec_verify_ok(
                sector_bytes(b, x as int),
            )),
{
    lemma_corrupt_upto_membership(b, 2048);
}

proof fn lemma_corrupt_upto_membership(b: Seq<u8>, n: int)
    requires
        n <= 2048,
    ensures
        forall|x: u64|
            #[trigger] corrupt_upto(b, n).contains(x) <==> (x < n && !spec_verify_ok(
                sector_bytes(b, x as int),
            )),
    decreases n,
{
    if n <= 0 {
        assert forall|x: u64| !corrupt_upto(b, n).contains(x) by {
            assert(corrupt_upto(b, n).len() == 0);
        }
    } else {
        lemma_corrupt_upto_membership(b, n - 1);
        let prev = corrupt_upto(b, n - 1);
        if spec_verify_ok(sector_bytes(b, n - 1)) {
            assert forall|x: u64|
                #[trigger] corrupt_upto(b, n).contains(x) <==> (x < n && !spec_verify_ok(
                    sector_bytes(b, x as int),
                )) by {
                if x < n && !spec_verify_ok(sector_bytes(b, x as int)) {
                    assert(x != (n - 1) as u64);
                }
            }
        } else {
            let cur = prev.push((n - 1) as u64);
            assert forall|x: u64|
                #[trigger] cur.contains(x) <==> (x < n && !spec_verify_ok(
                    sector_bytes(b, x as int),
                )) by {
                if cur.contains(x) {
                    let i = choose|i: int| 0 <= i < cur.len() && cur[i] == x;
                    if i < prev.len() {
                        assert(prev[i] == x);
                        assert(prev.contains(x));
                    } else {
                        assert(x == (n - 1) as u64);
                    }
                }
                if x < n && !spec_verify_ok(sector_bytes(b, x as int)) {
                    if x < n - 1 {
                        assert(prev.contains(x));
                        let i = choose|i: int| 0 <= i < prev.len() && prev[i] == x;
                        assert(cur[i] == x);
                        assert(cur.contains(x));
                    } else {
                        assert(cur[prev.len() as int] == x);
                        assert(cur.contains(x));
                    }
                }
            }
        }
    }
}

/// A scan reports sector indices in strictly ascending order.
pub proof fn lemma_check_sorted(b: Seq<u8>)
    ensures
        forall|i: int, j: int|
            0 <= i < j < corrupt_sectors(b).len() ==> corrupt_sectors(b)[i] < corrupt_sectors(b)[j],
{
    lemma_corrupt_upto_sorted(b, 2048);
}

proof fn lemma_corrupt_upto_sorted(b: Seq<u8>, n: int)
    requires
        n <= 2048,
    ensures
        forall|i: int, j: int|
            0 <= i < j < corrupt_upto(b, n).len() ==> corrupt_upto(b, n)[i] < corrupt_upto(b, n)[j],
        forall|i: int|
            0 <= i < corrupt_upto(b, n).len() ==> #[trigger] corrupt_upto(b, n)[i] < n,
    decreases n,
{
    if n <= 0 {
        assert(corrupt_upto(b, n).len() == 0);
    } else {
        lemma_corrupt_upto_sorted(b, n - 1);
        let prev = corrupt_upto(b, n - 1);
        let cur = corrupt_upto(b, n);
        if spec_verify_ok(sector_bytes(b, n - 1)) {
            assert(cur == prev);
        } else {
            assert(cur == prev.push((n - 1) as u64));
            assert forall|i: int| 0 <= i < cur.len() implies #[trigger] cur[i] < n by {
                if i < prev.len() {
                    assert(prev[i] < n - 1);
                } else {
                    assert(cur[i] == (n - 1) as u64);
                }
            }
            assert forall|i: int, j: int| 0 <= i < j < cur.len() implies cur[i] < cur[j] by {
                if j < prev.len() {
                    assert(prev[i] < prev[j]);
                } else {
                    assert(cur[j] == (n - 1) as u64);
                    assert(prev[i] < n - 1);
                }
            }
        }
    }
}

/// After corrupting bytes confined to sector `i` of a filled cluster, a scan
/// reports `i` and only `i` - and reports it exactly when the modified
/// sector's stored checksum no longer matches the digest of its header bytes.
pub proof fn lemma_single_sector_corruption(
    b0: Seq<u8>,
    b1: Seq<u8>,
    disk_size: u64,
    cluster_id: u64,
    i: int,
)
    requires
        cluster_filled(b0, disk_size, cluster_id),
        b1.len() == b0.len(),
        0 <= i < 2048,
        forall|k: int| 0 <= k < b0.len() && !(512 * i <= k < 512 * i + 512) ==> b1[k] == b0[k],
    ensures
        corrupt_sectors(b1) == if spec_verify_ok(sector_bytes(b1, i)) {
            Seq::<u64>::empty()
        } else {
            seq![i as u64]
        },
{
    assert forall|j: int| 0 <= j < 2048 && j != i implies sector_bytes(b1, j) =~= sector_bytes(
        b0,
        j,
    ) by {}
    lemma_single_sector_upto(b0, b1, disk_size, cluster_id, i, 2048);
}

proof fn lemma_single_sector_upto(
    b0: Seq<u8>,
    b1: Seq<u8>,
    disk_size: u64,
    cluster_id: u64,
    i: int,
    n: int,
)
    requires
        cluster_filled(b0, disk_size, cluster_id),
        b1.len() == b0.len(),
        0 <= i < 2048,
        n <= 2048,
        forall|j: int| 0 <= j < 2048 && j != i ==> sector_bytes(b1, j) == sector_bytes(b0, j),
    ensures
        corrupt_upto(b1, n) == if i < n && !spec_verify_ok(sector_bytes(b1, i)) {
            seq![i as u64]
        } else {
            Seq::<u64>::empty()
        },
    decreases n,
{
    if n > 0 {
        lemma_single_sector_upto(b0, b1, disk_size, cluster_id, i, n - 1);
        if n - 1 != i {
            assert(filled_sector(sector_bytes(b0, n - 1), disk_size, cluster_id, (n - 1) as u64));
            assert(spec_verify_ok(sector_bytes(b1, n - 1)));
        } else {
            if !spec_verify_ok(sector_bytes(b1, i)) {
                assert(corrupt_upto(b1, n) =~= seq![i as u64]);
            }
        }
    }
}

/// After one fault injection into a filled cluster, the scan reports at
/// most the one sector whose bytes changed - and reports it exactly when
/// that sector's stored checksum no longer matches its header digest.
pub proof fn lemma_injected_cluster_report(
    b0: Seq<u8>,
    b1: Seq<u8>,
    disk_size: u64,
    cluster_id: u64,
)
    requires
        cluster_filled(b0, disk_size, cluster_id),
        corrupted_within_one_sector(b0, b1),
    ensures
        exists|s: int|
            0 <= s < 2048 && corrupt_sectors(b1) == (if spec_verify_ok(
                #[trigger] sector_bytes(b1, s),
            ) {
                Seq::<u64>::empty()
            } else {
                seq![s as u64]
            }),
{
    let (s, a, e) = choose|s: int, a: int, e: int| corruption_range(b0, b1, s, a, e);
    assert(corruption_range(b0, b1, s, a, e));
    lemma_single_sector_corruption(b0, b1, disk_size, cluster_id, s);
    assert(0 <= s < 2048 && corrupt_sectors(b1) == (if spec_verify_ok(sector_bytes(b1, s)) {
        Seq::<u64>::empty()
    } else {
        seq![s as u64]
    }));
}

/// Corrupting bytes of sector `s` that all lie inside the checksum-covered
/// header region changes the digest's preimage while leaving the stored
/// checksum text alone: whether the scan reports `s` then rests exactly on
/// the digest of the changed header differing from the stored text.
pub proof fn lemma_header_corruption_changes_preimage(
    b0: Seq<u8>,
    b1: Seq<u8>,
    s: int,
    a: int,
    e: int,
)
    requires
        b0.len() == CLUSTER_SIZE,
        b1.len() == b0.len(),
        corruption_range(b0, b1, s, a, e),
        e <= 444,
    ensures
        sector_bytes(b1, s).subrange(0, 444) != sector_bytes(b0, s).subrange(0, 444),
        sector_bytes(b1, s).subrange(444, 512) == sector_bytes(b0, s).subrange(444, 512),
{
    assert(sector_bytes(b1, s).subrange(0, 444)[a] == b1[512 * s + a]);
    assert(sector_bytes(b0, s).subrange(0, 444)[a] == b0[512 * s + a]);
    assert(b1[512 * s + a] != b0[512 * s + a]);
    assert(sector_bytes(b1, s).subrange(444, 512) =~= sector_bytes(b0, s).subrange(444, 512));
}

/// A failing sector is always reported: whenever a sector of a cluster
/// image fails verification, the scan's result contains its index and is
/// in particular non-empty.
pub proof fn lemma_failing_sector_reported(b: Seq<u8>, i: int)
    requires
        0 <= i < 2048,
        !spec_verify_ok(sector_bytes(b, i)),
    ensures
        corrupt_sectors(b).contains(i as u64),
        corrupt_sectors(b).len() > 0,
{
    lemma_check_complete(b);
    assert(corrupt_sectors(b).contains(i as u64));
}

/// The strongest statable form of header-corruption detection: after
/// corrupting only checksum-covered header bytes of sector `i` of a filled
/// cluster, the scan reports `i` and only `i` - unless the digest of the
/// changed header collides with the digest of the original one, which
/// collision resistance of the digest rules out but no contract over an
/// uninterpreted digest can.
pub proof fn lemma_header_corruption_detection(
    b0: Seq<u8>,
    b1: Seq<u8>,
    disk_size: u64,
    cluster_id: u64,
    i: int,
    a: int,
    e: int,
)
    requires
        cluster_filled(b0, disk_size, cluster_id),
        b1.len() == b0.len(),
        corruption_range(b0, b1, i, a, e),
        e <= 444,
    ensures
        sector_bytes(b1, i).subrange(0, 444) != sector_bytes(b0, i).subrange(0, 444),
        corrupt_sectors(b1) == (if sha256_hex_of(sector_bytes(b1, i).subrange(0, 444))
            == sha256_hex_of(sector_bytes(b0, i).subrange(0, 444)) {
            Seq::<u64>::empty()
        } else {
            seq![i as u64]
        }),
{
    lemma_header_corruption_changes_preimage(b0, b1, i, a, e);
    assert(filled_sector(sector_bytes(b0, i), disk_size, cluster_id, i as u64));
    assert(spec_verify_ok(sector_bytes(b1, i)) <==> sha256_hex_of(
        sector_bytes(b1, i).subrange(0, 444),
    ) == sha256_hex_of(sector_bytes(b0, i).subrange(0, 444)));
    lemma_single_sector_corruption(b0, b1, disk_size, cluster_id, i);
}

/// Positional binding: after a fill, the record decoded from sector `i`
/// claims exactly this cluster's id and its own index `i`.
pub proof fn lemma_positional_binding(b: Seq<u8>, disk_size: u64, cluster_id: u64)
    requires
        cluster_filled(b, disk_size, cluster_id),
    ensures
        forall|i: int|
            0 <= i < 2048 ==> spec_deserialize(#[trigger] sector_bytes(b, i)).cluster_id
                == cluster_id && spec_deserialize(sector_bytes(b, i)).sector_id == i,
{
    assert forall|i: int| 0 <= i < 2048 implies spec_deserialize(
        #[trigger] sector_bytes(b, i),
    ).cluster_id == cluster_id && spec_deserialize(sector_bytes(b, i)).sector_id == i by {
        assert(filled_sector(sector_bytes(b, i), disk_size, cluster_id, i as u64));
    }
}

} // verus!
