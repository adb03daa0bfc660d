//! Big-endian integer codecs and small byte-buffer helpers that the
//! on-disk sector format is built from.

use vstd::prelude::*;

verus! {

/// The four bytes of `x` in big-endian order.
pub open spec fn be_u32_bytes(x: u32) -> Seq<u8> {
    seq![(x >> 24) as u8, (x >> 16) as u8, (x >> 8) as u8, x as u8]
}

/// The eight bytes of `x` in big-endian order.
pub open spec fn be_u64_bytes(x: u64) -> Seq<u8> {
    seq![
        (x >> 56) as u8,
        (x >> 48) as u8,
        (x >> 40) as u8,
        (x >> 32) as u8,
        (x >> 24) as u8,
        (x >> 16) as u8,
        (x >> 8) as u8,
        x as u8,
    ]
}

/// The value read big-endian from four bytes.
pub open spec fn be_u32_of(s: Seq<u8>) -> u32
    recommends
        s.len() == 4,
{
    (((s[0] as u32) << 24) | ((s[1] as u32) << 16) | ((s[2] as u32) << 8) | (s[3] as u32)) as u32
}

/// The value read big-endian from eight bytes.
pub open spec fn be_u64_of(s: Seq<u8>) -> u64
    recommends
        s.len() == 8,
{
    (((s[0] as u64) << 56) | ((s[1] as u64) << 48) | ((s[2] as u64) << 40) | ((s[3] as u64) << 32)
        | ((s[4] as u64) << 24) | ((s[5] as u64) << 16) | ((s[6] as u64) << 8) | (s[7] as u64)) as u64
}

pub proof fn lemma_be_u32_roundtrip(x: u32)
    ensures
        be_u32_of(be_u32_bytes(x)) == x,
{
    assert(((((x >> 24) as u8) as u32) << 24 | (((x >> 16) as u8) as u32) << 16 | (((x >> 8) as u8)
        as u32) << 8 | ((x as u8) as u32)) as u32 == x) by (bit_vector);
}

pub proof fn lemma_be_u64_roundtrip(x: u64)
    ensures
        be_u64_of(be_u64_bytes(x)) == x,
{
    assert(((((x >> 56) as u8) as u64) << 56 | (((x >> 48) as u8) as u64) << 48 | (((x >> 40) as u8)
        as u64) << 40 | (((x >> 32) as u8) as u64) << 32 | (((x >> 24) as u8) as u64) << 24 | (((x
        >> 16) as u8) as u64) << 16 | (((x >> 8) as u8) as u64) << 8 | ((x as u8) as u64)) as u64
        == x) by (bit_vector);
}

/// A sequence of `n` zero bytes.
pub open spec fn zero_bytes(n: int) -> Seq<u8> {
    Seq::new(n as nat, |i: int| 0u8)
}

/// `s` with every trailing zero byte removed.
pub open spec fn trim_zeros(s: Seq<u8>) -> Seq<u8>
    decreases s.len(),
{
    if s.len() == 0 {
        s
    } else if s[s.len() - 1] == 0 {
        trim_zeros(s.drop_last())
    } else {
        s
    }
}

/// Trimming removes exactly the trailing zeros: if everything from `k` on is
/// zero and the byte before `k` (if any) is not, the trimmed sequence is the
/// prefix of length `k`.
pub proof fn lemma_trim_zeros_characterization(s: Seq<u8>, k: int)
    requires
        0 <= k <= s.len(),
        forall|i: int| k <= i < s.len() ==> s[i] == 0,
        k > 0 ==> s[k - 1] != 0,
    ensures
        trim_zeros(s) == s.subrange(0, k),
    decreases s.len(),
{
    if s.len() == k {
        if k == 0 {
            assert(trim_zeros(s) =~= s.subrange(0, 0));
        } else {
            assert(s[s.len() - 1] != 0);
            assert(trim_zeros(s) =~= s.subrange(0, k));
        }
    } else {
        assert(s[s.len() - 1] == 0);
        let d = s.drop_last();
        assert(d =~= s.subrange(0, s.len() - 1));
        lemma_trim_zeros_characterization(d, k);
        assert(d.subrange(0, k) =~= s.subrange(0, k));
    }
}

/// What trimming guarantees: the result is no longer than the input and
/// never ends in a zero byte.
pub proof fn lemma_trim_zeros_props(s: Seq<u8>)
    ensures
        trim_zeros(s).len() <= s.len(),
        trim_zeros(s).len() > 0 ==> trim_zeros(s)[trim_zeros(s).len() - 1] != 0,
    decreases s.len(),
{
    if s.len() == 0 {
    } else if s[s.len() - 1] == 0 {
        lemma_trim_zeros_props(s.drop_last());
    }
}

/// Appends the four big-endian bytes of `x`.
pub fn push_u32_be(v: &mut Vec<u8>, x: u32)
    ensures
        final(v)@ == old(v)@ + be_u32_bytes(x),
{
    v.push((x >> 24) as u8);
    v.push((x >> 16) as u8);
    v.push((x >> 8) as u8);
    v.push(x as u8);
    assert(v@ =~= old(v)@ + be_u32_bytes(x));
}

/// Appends the eight big-endian bytes of `x`.
pub fn push_u64_be(v: &mut Vec<u8>, x: u64)
    ensures
        final(v)@ == old(v)@ + be_u64_bytes(x),
{
    v.push((x >> 56) as u8);
    v.push((x >> 48) as u8);
    v.push((x >> 40) as u8);
    v.push((x >> 32) as u8);
    v.push((x >> 24) as u8);
    v.push((x >> 16) as u8);
    v.push((x >> 8) as u8);
    v.push(x as u8);
    assert(v@ =~= old(v)@ + be_u64_bytes(x));
}

/// Appends all of `src`.
pub fn push_bytes(v: &mut Vec<u8>, src: &Vec<u8>)
    ensures
        final(v)@ == old(v)@ + src@,
{
    let n = src.len();
    let mut i: usize = 0;
    while i < n
        invariant
            i <= n,
            n == src@.len(),
            v@ == old(v)@ + src@.subrange(0, i as int),
        decreases n - i,
    {
        v.push(src[i]);
        assert(v@ =~= old(v)@ + src@.subrange(0, i + 1));
        i = i + 1;
    }
    assert(v@ =~= old(v)@ + src@);
}

/// Appends `n` zero bytes.
pub fn push_zeros(v: &mut Vec<u8>, n: usize)
    ensures
        final(v)@ == old(v)@ + zero_bytes(n as int),
{
    let mut i: usize = 0;
    while i < n
        invariant
            i <= n,
            v@ == old(v)@ + zero_bytes(i as int),
        decreases n - i,
    {
        v.push(0u8);
        assert(v@ =~= old(v)@ + zero_bytes(i + 1));
        i = i + 1;
    }
}

/// Overwrites `buf[pos .. pos + src.len())` with `src`, leaving the rest alone.
pub fn write_bytes_at(buf: &mut Vec<u8>, pos: usize, src: &Vec<u8>)
    requires
        pos + src@.len() <= old(buf)@.len(),
    ensures
        final(buf)@.len() == old(buf)@.len(),
        final(buf)@.subrange(pos as int, pos + src@.len()) == src@,
        forall|k: int|
            0 <= k < old(buf)@.len() && !(pos <= k < pos + src@.len()) ==> final(buf)@[k] == old(
                buf,
            )@[k],
{
    let n = src.len();
    let total = buf.len();
    let mut i: usize = 0;
    while i < n
        invariant
            i <= n,
            n == src@.len(),
            pos + n <= total,
            total == buf@.len(),
            buf@.len() == old(buf)@.len(),
            forall|k: int| pos <= k < pos + i ==> buf@[k] == src@[k - pos],
            forall|k: int|
                0 <= k < old(buf)@.len() && !(pos <= k < pos + i) ==> buf@[k] == old(buf)@[k],
        decreases n - i,
    {
        buf.set(pos + i, src[i]);
        i = i + 1;
    }
    assert(buf@.subrange(pos as int, pos + n) =~= src@);
}

/// Copies `buf[pos .. pos + n)` out into a fresh vector.
pub fn read_bytes(buf: &Vec<u8>, pos: usize, n: usize) -> (r: Vec<u8>)
    requires
        pos + n <= buf@.len(),
    ensures
        r@ == buf@.subrange(pos as int, pos + n),
{
    let total = buf.len();
    let mut r: Vec<u8> = Vec::new();
    let mut i: usize = 0;
    while i < n
        invariant
            i <= n,
            pos + n <= total,
            total == buf@.len(),
            r@ == buf@.subrange(pos as int, pos + i),
        decreases n - i,
    {
        r.push(buf[pos + i]);
        assert(r@ =~= buf@.subrange(pos as int, pos + i + 1));
        i = i + 1;
    }
    r
}

/// Whether two byte vectors hold the same bytes.
pub fn bytes_eq(a: &Vec<u8>, b: &Vec<u8>) -> (r: bool)
    ensures
        r <==> a@ == b@,
{
    if a.len() != b.len() {
        assert(a@.len() != b@.len());
        return false;
    }
    let n = a.len();
    let mut i: usize = 0;
    while i < n
        invariant
            i <= n,
            n == a@.len(),
            n == b@.len(),
            forall|k: int| 0 <= k < i ==> a@[k] == b@[k],
        decreases n - i,
    {
        if a[i] != b[i] {
            return false;
        }
        i = i + 1;
    }
    assert(a@ =~= b@);
    true
}

/// Reads a `u32` big-endian from `buf[pos..pos + 4)`.
pub fn read_u32_be(buf: &Vec<u8>, pos: usize) -> (r: u32)
    requires
        pos + 4 <= buf@.len(),
    ensures
        r == be_u32_of(buf@.subrange(pos as int, pos + 4)),
{
    let total = buf.len();
    ((buf[pos] as u32) << 24) | ((buf[pos + 1] as u32) << 16) | ((buf[pos + 2] as u32) << 8) | (
    buf[pos + 3] as u32)
}

/// Reads a `u64` big-endian from `buf[pos..pos + 8)`.
pub fn read_u64_be(buf: &Vec<u8>, pos: usize) -> (r: u64)
    requires
        pos + 8 <= buf@.len(),
    ensures
        r == be_u64_of(buf@.subrange(pos as int, pos + 8)),
{
    let total = buf.len();
    ((buf[pos] as u64) << 56) | ((buf[pos + 1] as u64) << 48) | ((buf[pos + 2] as u64) << 40) | ((
    buf[pos + 3] as u64) << 32) | ((buf[pos + 4] as u64) << 24) | ((buf[pos + 5] as u64) << 16) | ((
    buf[pos + 6] as u64) << 8) | (buf[pos + 7] as u64)
}

/// Copies `v[pos .. pos + n)` out with every trailing zero byte removed.
pub fn trim_trailing_zeros(v: &Vec<u8>, pos: usize, n: usize) -> (r: Vec<u8>)
    requires
        pos + n <= v@.len(),
    ensures
        r@ == trim_zeros(v@.subrange(pos as int, pos + n)),
{
    let ghost s = v@.subrange(pos as int, pos + n);
    let total = v.len();
    let mut end: usize = n;
    while end > 0 && v[pos + end - 1] == 0
        invariant
            end <= n,
            pos + n <= total,
            total == v@.len(),
            s == v@.subrange(pos as int, pos + n),
            forall|i: int| end <= i < n ==> s[i] == 0,
        decreases end,
    {
        end = end - 1;
    }
    proof {
        lemma_trim_zeros_characterization(s, end as int);
    }
    let r = read_bytes(v, pos, end);
    assert(r@ =~= s.subrange(0, end as int));
    r
}

} // verus!
