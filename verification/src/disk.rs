//! The whole-disk orchestrator: iterates the device's whole clusters to fill
//! them with fresh records, scan them for corruption, or inject a fault into
//! one of them.

use vstd::prelude::*;

use crate::cluster::ClusterSchema;
use crate::cluster::CLUSTER_SIZE;
use crate::cluster::cluster_filled;
use crate::cluster::lemma_filled_check_empty;
use crate::cluster::corrupt_sectors;
use crate::cluster::corrupted_within_one_sector;
use crate::cluster::sector_bytes;
use crate::device::BlockDevice;
use crate::device::CHUNK_SIZE;
use crate::errors::StorageError;
use crate::sector::SectorSchema;
use crate::sector::spec_deserialize;

verus! {

/// The 1 MiB byte region of cluster `c` within a device image.
pub open spec fn cluster_region(d: Seq<u8>, c: int) -> Seq<u8> {
    d.subrange(c * (CLUSTER_SIZE as int), (c + 1) * (CLUSTER_SIZE as int))
}

/// The corrupted sectors of cluster `c`, each tagged with the cluster id.
pub open spec fn cluster_pairs(d: Seq<u8>, c: int) -> Seq<(u64, u64)> {
    corrupt_sectors(cluster_region(d, c)).map(|k: int, s: u64| ((c as u64), s))
}

/// Every corrupted (cluster, sector) pair among the first `n` clusters, in
/// ascending cluster order.
pub open spec fn disk_corrupt_upto(d: Seq<u8>, n: int) -> Seq<(u64, u64)>
    decreases n,
{
    if n <= 0 {
        Seq::empty()
    } else {
        disk_corrupt_upto(d, n - 1) + cluster_pairs(d, n - 1)
    }
}

/// The byte geometry of a whole cluster below the device's whole-cluster
/// count: its offset is nonnegative, aligned to the direct-I/O unit, one
/// cluster past it still fits on the device, and the end offset is the start
/// offset plus one cluster.
proof fn lemma_cluster_geometry(size: u64, cid: u64)
    requires
        (cid as int) < (size as int) / (CLUSTER_SIZE as int),
    ensures
        (cid as int + 1) * (CLUSTER_SIZE as int) == (cid as int) * (CLUSTER_SIZE as int) + (
        CLUSTER_SIZE as int),
        (cid as int) * (CLUSTER_SIZE as int) + (CLUSTER_SIZE as int) <= size as int,
        (cid as int) * (CLUSTER_SIZE as int) >= 0,
        ((cid as int) * (CLUSTER_SIZE as int)) % (CHUNK_SIZE as int) == 0,
{
    assert(CLUSTER_SIZE as int == 1048576);
    assert(CHUNK_SIZE as int == 4096);
    assert((cid as int + 1) * (CLUSTER_SIZE as int) == (cid as int) * (CLUSTER_SIZE as int) + (
    CLUSTER_SIZE as int)) by (nonlinear_arith);
    assert((cid as int) * (CLUSTER_SIZE as int) >= 0) by (nonlinear_arith);
    assert((cid as int) * (CLUSTER_SIZE as int) + (CLUSTER_SIZE as int) <= size as int)
        by (nonlinear_arith)
        requires
            (cid as int) < (size as int) / (CLUSTER_SIZE as int),
            (CLUSTER_SIZE as int) == 1048576,
            size >= 0,
    ;
    assert(((cid as int) * (CLUSTER_SIZE as int)) % (CHUNK_SIZE as int) == 0) by (nonlinear_arith)
        requires
            (CLUSTER_SIZE as int) == 1048576,
            (CHUNK_SIZE as int) == 4096,
    ;
}

/// A freshly filled disk scans clean: when the first `n` clusters of a
/// device image are all filled, the whole-disk report over them is empty.
pub proof fn lemma_filled_disk_reports_clean(d: Seq<u8>, size: u64, n: int)
    requires
        forall|c: int|
            0 <= c < n ==> cluster_filled(#[trigger] cluster_region(d, c), size, c as u64),
    ensures
        disk_corrupt_upto(d, n) == Seq::<(u64, u64)>::empty(),
    decreases n,
{
    if n > 0 {
        lemma_filled_disk_reports_clean(d, size, n - 1);
        lemma_filled_check_empty(cluster_region(d, n - 1), size, (n - 1) as u64);
        assert(cluster_pairs(d, n - 1) =~= Seq::<(u64, u64)>::empty());
        assert(disk_corrupt_upto(d, n) =~= Seq::<(u64, u64)>::empty());
    }
}

/// Corruption is local to its cluster: when only bytes inside cluster
/// `cid`'s region changed, every other whole cluster's region is unchanged.
pub proof fn lemma_untouched_regions_unchanged(d0: Seq<u8>, d1: Seq<u8>, cid: int)
    requires
        d1.len() == d0.len(),
        0 <= cid,
        forall|k: int|
            0 <= k < d0.len() && !(cid * (CLUSTER_SIZE as int) <= k < (cid + 1) * (
            CLUSTER_SIZE as int)) ==> d1[k] == d0[k],
    ensures
        forall|c: int|
            0 <= c && c != cid && (c + 1) * (CLUSTER_SIZE as int) <= d0.len()
                ==> cluster_region(d1, c) == #[trigger] cluster_region(d0, c),
{
    assert forall|c: int|
        0 <= c && c != cid && (c + 1) * (CLUSTER_SIZE as int) <= d0.len() implies cluster_region(
        d1,
        c,
    ) == #[trigger] cluster_region(d0, c) by {
        if c < cid {
            vstd::arithmetic::mul::lemma_mul_inequality(c + 1, cid, CLUSTER_SIZE as int);
        } else {
            vstd::arithmetic::mul::lemma_mul_inequality(cid + 1, c, CLUSTER_SIZE as int);
        }
        assert((c + 1) * (CLUSTER_SIZE as int) == c * (CLUSTER_SIZE as int) + (CLUSTER_SIZE as int))
            by (nonlinear_arith);
        assert((cid + 1) * (CLUSTER_SIZE as int) == cid * (CLUSTER_SIZE as int) + (
        CLUSTER_SIZE as int)) by (nonlinear_arith);
        assert(c * (CLUSTER_SIZE as int) >= 0) by (nonlinear_arith)
            requires
                c >= 0,
                (CLUSTER_SIZE as int) == 1048576,
        ;
        assert forall|t: int|
            c * (CLUSTER_SIZE as int) <= t < (c + 1) * (CLUSTER_SIZE as int) implies #[trigger] d1[t]
            == d0[t] by {}
        assert(cluster_region(d1, c) =~= cluster_region(d0, c));
    }
}

/// Fault injection is local: when the first `n` clusters of a device image
/// were filled and only bytes inside cluster `cid`'s region changed, every
/// other one of those clusters still scans clean.
pub proof fn lemma_fault_injection_is_local(
    d0: Seq<u8>,
    d1: Seq<u8>,
    size: u64,
    cid: int,
    n: int,
)
    requires
        d1.len() == d0.len(),
        0 <= cid,
        n * (CLUSTER_SIZE as int) <= d0.len(),
        forall|c: int|
            0 <= c < n ==> cluster_filled(#[trigger] cluster_region(d0, c), size, c as u64),
        forall|k: int|
            0 <= k < d0.len() && !(cid * (CLUSTER_SIZE as int) <= k < (cid + 1) * (
            CLUSTER_SIZE as int)) ==> d1[k] == d0[k],
    ensures
        forall|c: int|
            0 <= c < n && c != cid ==> corrupt_sectors(#[trigger] cluster_region(d1, c))
                == Seq::<u64>::empty(),
{
    lemma_untouched_regions_unchanged(d0, d1, cid);
    assert forall|c: int| 0 <= c < n && c != cid implies corrupt_sectors(
        #[trigger] cluster_region(d1, c),
    ) == Seq::<u64>::empty() by {
        vstd::arithmetic::mul::lemma_mul_inequality(c + 1, n, CLUSTER_SIZE as int);
        assert(cluster_region(d1, c) == cluster_region(d0, c));
        lemma_filled_check_empty(cluster_region(d0, c), size, c as u64);
    }
}

/// The stateless whole-disk controller, bound to one device.
pub struct DiskSchema {
    pub dev: BlockDevice,
}

impl DiskSchema {
    /// The controller is as well-formed as its device.
    pub open spec fn wf(&self) -> bool {
        self.dev.wf()
    }

    /// How many whole clusters fit on the device; a trailing partial cluster
    /// is never touched.
    pub open spec fn spec_nr_clusters(&self) -> int {
        (self.dev.size as int) / (CLUSTER_SIZE as int)
    }

    /// A controller for the given device.
    pub fn new(dev: BlockDevice) -> (r: Self)
        ensures
            r.dev == dev,
    {
        DiskSchema { dev }
    }

    /// The number of whole clusters on the device.
    pub fn nr_clusters(&self) -> (r: u64)
        ensures
            r == self.spec_nr_clusters(),
    {
        self.dev.get_disk_size() / CLUSTER_SIZE
    }

    /// Fills one cluster with fresh records and writes it to the device.
    /// A cluster id at or past the whole-cluster count is refused with
    /// `OutOfRangeCluster` and the device is untouched.
    pub fn fill_disk(&mut self, cluster_id: u64) -> (r: Result<(), StorageError>)
        requires
            old(self).wf(),
        ensures
            final(self).wf(),
            final(self).dev.size == old(self).dev.size,
            final(self).dev.dev_path == old(self).dev.dev_path,
            final(self).dev.storage@.len() == old(self).dev.storage@.len(),
            (cluster_id as int) >= old(self).spec_nr_clusters() ==> r == Err::<(), StorageError>(
                StorageError::OutOfRangeCluster,
            ) && final(self).dev.storage@ == old(self).dev.storage@,
            (cluster_id as int) < old(self).spec_nr_clusters() ==> {
                &&& r == Ok::<(), StorageError>(())
                &&& cluster_filled(
                    cluster_region(final(self).dev.storage@, cluster_id as int),
                    old(self).dev.size,
                    cluster_id,
                )
                &&& forall|k: int|
                    0 <= k < old(self).dev.storage@.len() && !((cluster_id as int) * (
                    CLUSTER_SIZE as int) <= k < (cluster_id as int + 1) * (CLUSTER_SIZE as int))
                        ==> final(self).dev.storage@[k] == old(self).dev.storage@[k]
            },
    {
        let disk_size = self.dev.get_disk_size();
        let nr = disk_size / CLUSTER_SIZE;
        if cluster_id >= nr {
            return Err(StorageError::OutOfRangeCluster);
        }
        proof {
            lemma_cluster_geometry(disk_size, cluster_id);
        }
        let mut clu = ClusterSchema::new().with_disk_size(disk_size);
        clu.set_id(cluster_id);
        clu.fill();
        let offset = cluster_id * CLUSTER_SIZE;
        self.dev.write_direct_at(&clu.buf, offset);
        proof {
            assert(cluster_region(self.dev.storage@, cluster_id as int) =~= clu.buf@);
        }
        Ok(())
    }

    /// Fills every whole cluster of the device in ascending order.
    pub fn fill_whole_disk(&mut self)
        requires
            old(self).wf(),
        ensures
            final(self).wf(),
            final(self).dev.size == old(self).dev.size,
            final(self).dev.dev_path == old(self).dev.dev_path,
            final(self).dev.storage@.len() == old(self).dev.storage@.len(),
            forall|c: int|
                0 <= c < old(self).spec_nr_clusters() ==> cluster_filled(
                    #[trigger] cluster_region(final(self).dev.storage@, c),
                    old(self).dev.size,
                    c as u64,
                ),
            forall|k: int|
                old(self).spec_nr_clusters() * (CLUSTER_SIZE as int) <= k
                    < old(self).dev.storage@.len() ==> final(self).dev.storage@[k]
                    == old(self).dev.storage@[k],
    {
        let disk_size = self.dev.get_disk_size();
        let nr = disk_size / CLUSTER_SIZE;
        let mut clu = ClusterSchema::new().with_disk_size(disk_size);
        let mut c: u64 = 0;
        while c < nr
            invariant
                c <= nr,
                self.wf(),
                self.dev.size == old(self).dev.size,
                self.dev.dev_path == old(self).dev.dev_path,
                self.dev.storage@.len() == old(self).dev.storage@.len(),
                disk_size == self.dev.size,
                nr == self.spec_nr_clusters(),
                clu.wf(),
                clu.spec_disk_size() == disk_size,
                forall|c2: int|
                    0 <= c2 < c ==> cluster_filled(
                        #[trigger] cluster_region(self.dev.storage@, c2),
                        disk_size,
                        c2 as u64,
                    ),
                forall|k: int|
                    (c as int) * (CLUSTER_SIZE as int) <= k < self.dev.storage@.len()
                        ==> self.dev.storage@[k] == old(self).dev.storage@[k],
            decreases nr - c,
        {
            proof {
                lemma_cluster_geometry(disk_size, c);
            }
            clu.set_id(c);
            clu.fill();
            let offset = c * CLUSTER_SIZE;
            let ghost prev = self.dev.storage@;
            self.dev.write_direct_at(&clu.buf, offset);
            proof {
                assert(cluster_region(self.dev.storage@, c as int) =~= clu.buf@);
                assert forall|c2: int| 0 <= c2 < c implies cluster_filled(
                    #[trigger] cluster_region(self.dev.storage@, c2),
                    disk_size,
                    c2 as u64,
                ) by {
                    lemma_cluster_geometry(disk_size, c2 as u64);
                    assert(c2 * (CLUSTER_SIZE as int) == (c2 as u64 as int) * (CLUSTER_SIZE as int));
                    assert((c2 + 1) * (CLUSTER_SIZE as int) == (c2 as u64 as int + 1) * (
                    CLUSTER_SIZE as int));
                    vstd::arithmetic::mul::lemma_mul_inequality(c2 + 1, c as int, CLUSTER_SIZE as int);
                    assert forall|t: int|
                        c2 * (CLUSTER_SIZE as int) <= t < (c2 + 1) * (CLUSTER_SIZE as int) implies
                        #[trigger] self.dev.storage@[t] == prev[t] by {}
                    assert(cluster_region(self.dev.storage@, c2) =~= cluster_region(prev, c2));
                    assert(cluster_filled(cluster_region(prev, c2), disk_size, c2 as u64));
                }
            }
            c = c + 1;
        }
    }

    /// Reads one cluster back and reports the ascending indices of its
    /// corrupted sectors; an out-of-range cluster id is refused with
    /// `OutOfRangeCluster`.
    pub fn check_disk(&self, cluster_id: u64) -> (r: Result<Vec<u64>, StorageError>)
        requires
            self.wf(),
        ensures
            (cluster_id as int) >= self.spec_nr_clusters() ==> (r matches Err(e) && e
                == StorageError::OutOfRangeCluster),
            (cluster_id as int) < self.spec_nr_clusters() ==> (r matches Ok(v) && v@
                == corrupt_sectors(cluster_region(self.dev.storage@, cluster_id as int))),
    {
        let disk_size = self.dev.get_disk_size();
        let nr = disk_size / CLUSTER_SIZE;
        if cluster_id >= nr {
            return Err(StorageError::OutOfRangeCluster);
        }
        proof {
            lemma_cluster_geometry(disk_size, cluster_id);
        }
        let mut clu = ClusterSchema::new().with_disk_size(disk_size);
        let offset = cluster_id * CLUSTER_SIZE;
        self.dev.read_direct_at(&mut clu.buf, offset);
        proof {
            assert(clu.buf@ =~= cluster_region(self.dev.storage@, cluster_id as int));
        }
        let bad = clu.check();
        Ok(bad)
    }

    /// Scans every whole cluster in ascending order and reports every
    /// corrupted (cluster id, sector id) pair found, not just the first.
    pub fn check_whole_disk(&self) -> (r: Vec<(u64, u64)>)
        requires
            self.wf(),
        ensures
            r@ == disk_corrupt_upto(self.dev.storage@, self.spec_nr_clusters()),
    {
        let disk_size = self.dev.get_disk_size();
        let nr = disk_size / CLUSTER_SIZE;
        let mut out: Vec<(u64, u64)> = Vec::new();
        let mut clu = ClusterSchema::new().with_disk_size(disk_size);
        let mut c: u64 = 0;
        while c < nr
            invariant
                c <= nr,
                self.wf(),
                disk_size == self.dev.size,
                nr == self.spec_nr_clusters(),
                clu.wf(),
                out@ == disk_corrupt_upto(self.dev.storage@, c as int),
            decreases nr - c,
        {
            proof {
                lemma_cluster_geometry(disk_size, c);
            }
            let offset = c * CLUSTER_SIZE;
            self.dev.read_direct_at(&mut clu.buf, offset);
            let ghost region = cluster_region(self.dev.storage@, c as int);
            proof {
                assert(clu.buf@ =~= region);
            }
            let errs = clu.check();
            let ne = errs.len();
            let mut j: usize = 0;
            while j < ne
                invariant
                    j <= ne,
                    ne == errs@.len(),
                    c < nr,
                    nr == self.spec_nr_clusters(),
                    errs@ == corrupt_sectors(region),
                    region == cluster_region(self.dev.storage@, c as int),
                    out@ == disk_corrupt_upto(self.dev.storage@, c as int) + cluster_pairs(
                        self.dev.storage@,
                        c as int,
                    ).subrange(0, j as int),
                decreases ne - j,
            {
                out.push((c, errs[j]));
                proof {
                    let d = self.dev.storage@;
                    assert(cluster_pairs(d, c as int)[j as int] == (c, errs@[j as int]));
                    assert(cluster_pairs(d, c as int).subrange(0, j as int + 1) =~= cluster_pairs(
                        d,
                        c as int,
                    ).subrange(0, j as int).push(cluster_pairs(d, c as int)[j as int]));
                    assert(out@ =~= disk_corrupt_upto(d, c as int) + cluster_pairs(
                        d,
                        c as int,
                    ).subrange(0, j as int + 1));
                }
                j = j + 1;
            }
            proof {
                let d = self.dev.storage@;
                assert(cluster_pairs(d, c as int).subrange(
                    0,
                    cluster_pairs(d, c as int).len() as int,
                ) =~= cluster_pairs(d, c as int));
                assert(out@ == disk_corrupt_upto(d, c as int + 1));
            }
            c = c + 1;
        }
        out
    }

    /// Decodes and returns the record claimed by one sector of one cluster,
    /// whether or not it verifies. Out-of-range addressing is refused with
    /// `OutOfRangeCluster`.
    pub fn read_sector(&self, cluster_id: u64, sector_id: u64) -> (r: Result<
        SectorSchema,
        StorageError,
    >)
        requires
            self.wf(),
        ensures
            ((cluster_id as int) >= self.spec_nr_clusters() || sector_id >= 2048) ==> (r matches
                Err(e) && e == StorageError::OutOfRangeCluster),
            ((cluster_id as int) < self.spec_nr_clusters() && sector_id < 2048) ==> (r matches Ok(
                sec,
            ) && sec@ == spec_deserialize(
                sector_bytes(
                    cluster_region(self.dev.storage@, cluster_id as int),
                    sector_id as int,
                ),
            )),
    {
        let disk_size = self.dev.get_disk_size();
        let nr = disk_size / CLUSTER_SIZE;
        if cluster_id >= nr || sector_id >= 2048 {
            return Err(StorageError::OutOfRangeCluster);
        }
        proof {
            lemma_cluster_geometry(disk_size, cluster_id);
        }
        let mut clu = ClusterSchema::new().with_disk_size(disk_size);
        let offset = cluster_id * CLUSTER_SIZE;
        self.dev.read_direct_at(&mut clu.buf, offset);
        proof {
            assert(clu.buf@ =~= cluster_region(self.dev.storage@, cluster_id as int));
        }
        let mut sec = SectorSchema::new();
        let pos = (sector_id as usize) * 512;
        sec.deserialize(&clu.buf, pos);
        proof {
            assert(clu.buf@.subrange(pos as int, pos as int + 512) =~= sector_bytes(
                cluster_region(self.dev.storage@, cluster_id as int),
                sector_id as int,
            ));
        }
        Ok(sec)
    }

    /// Reads one cluster, corrupts a random byte range within one of its
    /// sectors, and writes the cluster back. Reports whether the corruption
    /// was applied: always true for an in-range cluster id, false and no
    /// change for an out-of-range one.
    pub fn inject_cluster_error(&mut self, cluster_id: u64) -> (r: bool)
        requires
            old(self).wf(),
        ensures
            final(self).wf(),
            final(self).dev.size == old(self).dev.size,
            final(self).dev.dev_path == old(self).dev.dev_path,
            final(self).dev.storage@.len() == old(self).dev.storage@.len(),
            (cluster_id as int) >= old(self).spec_nr_clusters() ==> r == false
                && final(self).dev.storage@ == old(self).dev.storage@,
            (cluster_id as int) < old(self).spec_nr_clusters() ==> {
                &&& r == true
                &&& corrupted_within_one_sector(
                    cluster_region(old(self).dev.storage@, cluster_id as int),
                    cluster_region(final(self).dev.storage@, cluster_id as int),
                )
                &&& forall|k: int|
                    0 <= k < old(self).dev.storage@.len() && !((cluster_id as int) * (
                    CLUSTER_SIZE as int) <= k < (cluster_id as int + 1) * (CLUSTER_SIZE as int))
                        ==> final(self).dev.storage@[k] == old(self).dev.storage@[k]
            },
    {
        let disk_size = self.dev.get_disk_size();
        let nr = disk_size / CLUSTER_SIZE;
        if cluster_id >= nr {
            return false;
        }
        proof {
            lemma_cluster_geometry(disk_size, cluster_id);
        }
        let mut clu = ClusterSchema::new().with_disk_size(disk_size);
        let offset = cluster_id * CLUSTER_SIZE;
        self.dev.read_direct_at(&mut clu.buf, offset);
        proof {
            assert(clu.buf@ =~= cluster_region(self.dev.storage@, cluster_id as int));
        }
        let injected = clu.inject_error();
        self.dev.write_direct_at(&clu.buf, offset);
        proof {
            assert(cluster_region(self.dev.storage@, cluster_id as int) =~= clu.buf@);
        }
        injected
    }
}

} // verus!
