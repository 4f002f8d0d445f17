use vstd::prelude::*;

use crate::error::IOError;
use super::io::{bytes_equal, copy_into, copy_out, read_at, MNMIOVSlice, MNMIOV};
use super::{lemma_geometry, same_layout, QCow2BDS};

verus! {

/// One per-cluster step of a request: `len` bytes at guest offset `offset`, transferred to or
/// from buffer `buf_index` starting at `buf_offset`.
#[derive(Debug, Clone, Copy, PartialEq, Eq, Structural)]
pub struct IoChunk {
    pub offset: u64,
    pub len: u32,
    pub buf_index: usize,
    pub buf_offset: usize,
}

/// The smallest of three integers.
pub open spec fn min3(a: int, b: int, c: int) -> int {
    if a <= b && a <= c { a } else if b <= c { b } else { c }
}

/// The steps that serve `rem` bytes from guest offset `off`, with clusters of `cs` bytes and
/// buffers of lengths `lens`, the current one being `bi` at position `bpos`. Each step is as
/// long as the smallest of what is left in the cluster, in the buffer and in the request; an
/// exhausted buffer hands over to the next one.
pub open spec fn plan(off: int, rem: int, cs: int, lens: Seq<usize>, bi: int, bpos: int) -> Seq<IoChunk>
    decreases rem, lens.len() - bi,
{
    if rem <= 0 || cs <= 0 || bi < 0 || bi >= lens.len() || bpos < 0 {
        Seq::empty()
    } else if bpos >= lens[bi] {
        plan(off, rem, cs, lens, bi + 1, 0)
    } else {
        let n = min3(cs - off % cs, lens[bi] - bpos, rem);
        seq![IoChunk { offset: off as u64, len: n as u32, buf_index: bi as usize, buf_offset: bpos as usize }]
            + plan(off + n, rem - n, cs, lens, bi, bpos + n)
    }
}

/// Step `c` lies inside the request, inside one cluster and inside its buffer, at or after
/// buffer `bi` position `bpos`.
pub open spec fn chunk_in_bounds(c: IoChunk, off: int, rem: int, cs: int, lens: Seq<usize>, bi: int, bpos: int) -> bool {
    &&& 0 < c.len
    &&& off <= c.offset
    &&& c.offset + c.len <= off + rem
    &&& c.len + (c.offset as int) % cs <= cs
    &&& 0 <= bi <= c.buf_index < lens.len()
    &&& (c.buf_index == bi ==> c.buf_offset >= bpos)
    &&& c.buf_offset + c.len <= lens[c.buf_index as int]
}

/// Every step of a plan lies inside the request, inside one cluster and inside its buffer, at
/// or after the buffer position the plan starts from.
pub proof fn lemma_plan_bounds(off: int, rem: int, cs: int, lens: Seq<usize>, bi: int, bpos: int)
    requires
        0 <= off,
        off + rem <= u64::MAX,
        0 < cs <= u32::MAX,
        lens.len() <= usize::MAX,
    ensures
        forall|i: int| 0 <= i < plan(off, rem, cs, lens, bi, bpos).len() ==> chunk_in_bounds(
            #[trigger] plan(off, rem, cs, lens, bi, bpos)[i],
            off,
            rem,
            cs,
            lens,
            bi,
            bpos,
        ),
    decreases rem, lens.len() - bi,
{
    let p = plan(off, rem, cs, lens, bi, bpos);
    if rem <= 0 || cs <= 0 || bi < 0 || bi >= lens.len() || bpos < 0 {
    } else if bpos >= lens[bi] {
        lemma_plan_bounds(off, rem, cs, lens, bi + 1, 0);
        let q = plan(off, rem, cs, lens, bi + 1, 0);
        assert(p == q);
        assert forall|i: int| 0 <= i < p.len() implies chunk_in_bounds(p[i], off, rem, cs, lens, bi, bpos) by {
            assert(chunk_in_bounds(q[i], off, rem, cs, lens, bi + 1, 0));
        }
    } else {
        let n = min3(cs - off % cs, lens[bi] - bpos, rem);
        lemma_plan_bounds(off + n, rem - n, cs, lens, bi, bpos + n);
        let rest = plan(off + n, rem - n, cs, lens, bi, bpos + n);
        assert(0 <= off % cs < cs);
        assert(0 < n <= cs);
        assert(p == seq![IoChunk { offset: off as u64, len: n as u32, buf_index: bi as usize, buf_offset: bpos as usize }] + rest);
        assert forall|i: int| 0 <= i < p.len() implies chunk_in_bounds(p[i], off, rem, cs, lens, bi, bpos) by {
            if i > 0 {
                assert(p[i] == rest[i - 1]);
                assert(chunk_in_bounds(rest[i - 1], off + n, rem - n, cs, lens, bi, bpos + n));
            }
        }
    }
}

/// Step `b` comes after step `a` in the buffers, without overlapping it.
pub open spec fn chunks_ordered(a: IoChunk, b: IoChunk) -> bool {
    b.buf_index > a.buf_index || (b.buf_index == a.buf_index && b.buf_offset >= a.buf_offset + a.len)
}

/// Steps of a plan come in buffer order and never overlap in a buffer.
pub proof fn lemma_plan_ordered(off: int, rem: int, cs: int, lens: Seq<usize>, bi: int, bpos: int)
    requires
        0 <= off,
        off + rem <= u64::MAX,
        0 < cs <= u32::MAX,
        lens.len() <= usize::MAX,
    ensures
        forall|i: int, j: int| 0 <= i < j < plan(off, rem, cs, lens, bi, bpos).len() ==> chunks_ordered(
            #[trigger] plan(off, rem, cs, lens, bi, bpos)[i],
            #[trigger] plan(off, rem, cs, lens, bi, bpos)[j],
        ),
    decreases rem, lens.len() - bi,
{
    let p = plan(off, rem, cs, lens, bi, bpos);
    if rem <= 0 || cs <= 0 || bi < 0 || bi >= lens.len() || bpos < 0 {
    } else if bpos >= lens[bi] {
        lemma_plan_ordered(off, rem, cs, lens, bi + 1, 0);
        assert(p == plan(off, rem, cs, lens, bi + 1, 0));
    } else {
        let n = min3(cs - off % cs, lens[bi] - bpos, rem);
        lemma_plan_ordered(off + n, rem - n, cs, lens, bi, bpos + n);
        lemma_plan_bounds(off + n, rem - n, cs, lens, bi, bpos + n);
        let rest = plan(off + n, rem - n, cs, lens, bi, bpos + n);
        assert(0 <= off % cs < cs);
        assert(0 < n <= cs);
        assert(p == seq![IoChunk { offset: off as u64, len: n as u32, buf_index: bi as usize, buf_offset: bpos as usize }] + rest);
        assert forall|i: int, j: int| 0 <= i < j < p.len() implies chunks_ordered(p[i], p[j]) by {
            assert(p[j] == rest[j - 1]);
            assert(chunk_in_bounds(rest[j - 1], off + n, rem - n, cs, lens, bi, bpos + n));
            if i > 0 {
                assert(p[i] == rest[i - 1]);
                assert(chunks_ordered(rest[i - 1], rest[j - 1]));
            }
        }
    }
}

/// The room left in buffers `bi` onwards, the current one being at position `bpos`.
pub open spec fn space(lens: Seq<usize>, bi: int, bpos: int) -> int
    decreases lens.len() - bi,
{
    if bi < 0 || bi >= lens.len() {
        0
    } else {
        lens[bi] - bpos + space(lens, bi + 1, 0)
    }
}

/// The number of bytes that a sequence of steps transfers.
pub open spec fn chunk_total(chunks: Seq<IoChunk>) -> int
    decreases chunks.len(),
{
    if chunks.len() == 0 {
        0
    } else {
        chunks[0].len + chunk_total(chunks.drop_first())
    }
}

proof fn lemma_plan_total(off: int, rem: int, cs: int, lens: Seq<usize>, bi: int, bpos: int)
    requires
        0 <= off,
        off + rem <= u64::MAX,
        0 < cs <= u32::MAX,
        lens.len() <= usize::MAX,
        0 <= rem <= space(lens, bi, bpos),
        0 <= bpos,
        0 <= bi < lens.len() ==> bpos <= lens[bi],
    ensures
        chunk_total(plan(off, rem, cs, lens, bi, bpos)) == rem,
    decreases rem, lens.len() - bi,
{
    let p = plan(off, rem, cs, lens, bi, bpos);
    if rem <= 0 || bi < 0 || bi >= lens.len() {
        assert(p.len() == 0);
    } else if bpos >= lens[bi] {
        lemma_plan_total(off, rem, cs, lens, bi + 1, 0);
    } else {
        let n = min3(cs - off % cs, lens[bi] - bpos, rem);
        assert(0 <= off % cs < cs);
        let rest = plan(off + n, rem - n, cs, lens, bi, bpos + n);
        lemma_plan_total(off + n, rem - n, cs, lens, bi, bpos + n);
        assert(p.drop_first() =~= rest);
    }
}

/// A request whose buffers have room for it is served in full, in steps that each stay
/// inside one cluster: their lengths add up to the request's length.
pub proof fn lemma_split_covers_request(offset: u64, bytes: u64, cs: u32, lens: Seq<usize>)
    requires
        cs > 0,
        offset + bytes <= u64::MAX,
        lens.len() <= usize::MAX,
        bytes <= space(lens, 0, 0),
    ensures
        chunk_total(plan(offset as int, bytes as int, cs as int, lens, 0, 0)) == bytes,
        forall|i: int| 0 <= i < plan(offset as int, bytes as int, cs as int, lens, 0, 0).len() ==> {
            let c = #[trigger] plan(offset as int, bytes as int, cs as int, lens, 0, 0)[i];
            &&& 0 < c.len
            &&& c.len + (c.offset as int) % (cs as int) <= cs
        },
{
    lemma_plan_total(offset as int, bytes as int, cs as int, lens, 0, 0);
    lemma_plan_bounds(offset as int, bytes as int, cs as int, lens, 0, 0);
    assert forall|i: int| 0 <= i < plan(offset as int, bytes as int, cs as int, lens, 0, 0).len() implies {
        let c = #[trigger] plan(offset as int, bytes as int, cs as int, lens, 0, 0)[i];
        &&& 0 < c.len
        &&& c.len + (c.offset as int) % (cs as int) <= cs
    } by {
        assert(chunk_in_bounds(plan(offset as int, bytes as int, cs as int, lens, 0, 0)[i], offset as int, bytes as int, cs as int, lens, 0, 0));
    }
}

/// The total length of the buffers before buffer `bi`.
pub open spec fn prefix_len(lens: Seq<usize>, bi: int) -> int
    decreases bi,
{
    if bi <= 0 || bi > lens.len() {
        0
    } else {
        prefix_len(lens, bi - 1) + lens[bi - 1]
    }
}

proof fn lemma_plan_positions_from(off: int, rem: int, cs: int, lens: Seq<usize>, bi: int, bpos: int)
    requires
        0 <= off,
        off + rem <= u64::MAX,
        0 < cs <= u32::MAX,
        lens.len() <= usize::MAX,
        0 <= bpos,
        0 <= bi,
        bi < lens.len() ==> bpos <= lens[bi],
    ensures
        forall|i: int| 0 <= i < plan(off, rem, cs, lens, bi, bpos).len() ==> {
            let c = #[trigger] plan(off, rem, cs, lens, bi, bpos)[i];
            prefix_len(lens, c.buf_index as int) + c.buf_offset - (prefix_len(lens, bi) + bpos) == c.offset - off
        },
    decreases rem, lens.len() - bi,
{
    let p = plan(off, rem, cs, lens, bi, bpos);
    if rem <= 0 || bi >= lens.len() {
    } else if bpos >= lens[bi] {
        lemma_plan_positions_from(off, rem, cs, lens, bi + 1, 0);
        assert(prefix_len(lens, bi + 1) == prefix_len(lens, bi) + bpos);
        assert(p == plan(off, rem, cs, lens, bi + 1, 0));
    } else {
        let n = min3(cs - off % cs, lens[bi] - bpos, rem);
        assert(0 <= off % cs < cs);
        assert(0 < n <= cs);
        lemma_plan_positions_from(off + n, rem - n, cs, lens, bi, bpos + n);
        let rest = plan(off + n, rem - n, cs, lens, bi, bpos + n);
        assert(p == seq![IoChunk { offset: off as u64, len: n as u32, buf_index: bi as usize, buf_offset: bpos as usize }] + rest);
        assert forall|i: int| 0 <= i < p.len() implies {
            let c = #[trigger] p[i];
            prefix_len(lens, c.buf_index as int) + c.buf_offset - (prefix_len(lens, bi) + bpos) == c.offset - off
        } by {
            if i > 0 {
                assert(p[i] == rest[i - 1]);
            }
        }
    }
}

/// Each step of a request moves the bytes at its own distance from the request's start: its
/// position in the buffers laid end to end equals its guest offset minus the request's offset.
/// With a single buffer, step `c` uses the buffer from `c.offset - offset` on.
pub proof fn lemma_plan_positions(offset: u64, bytes: u64, cs: u32, lens: Seq<usize>)
    requires
        cs > 0,
        offset + bytes <= u64::MAX,
        lens.len() <= usize::MAX,
    ensures
        forall|i: int| 0 <= i < plan(offset as int, bytes as int, cs as int, lens, 0, 0).len() ==> {
            let c = #[trigger] plan(offset as int, bytes as int, cs as int, lens, 0, 0)[i];
            prefix_len(lens, c.buf_index as int) + c.buf_offset == c.offset - offset
        },
{
    lemma_plan_positions_from(offset as int, bytes as int, cs as int, lens, 0, 0);
}

/// The lengths of the buffers of a request.
pub open spec fn buffer_lens(bufs: Seq<Vec<u8>>) -> Seq<usize> {
    Seq::new(bufs.len(), |i: int| bufs[i]@.len() as usize)
}

/// Splits a request of `bytes` bytes at guest offset `offset` into per-cluster steps over
/// buffers of lengths `lens`. The steps cover the request as far as the buffers reach.
pub fn plan_chunks(offset: u64, bytes: u64, cluster_size: u32, lens: &Vec<usize>) -> (r: Vec<IoChunk>)
    requires
        cluster_size > 0,
        offset + bytes <= u64::MAX,
    ensures
        r@ == plan(offset as int, bytes as int, cluster_size as int, lens@, 0, 0),
{
    let ghost whole = plan(offset as int, bytes as int, cluster_size as int, lens@, 0, 0);
    let cs = cluster_size as u64;
    let mut out: Vec<IoChunk> = Vec::new();
    let mut off = offset;
    let mut rem = bytes;
    let mut bi: usize = 0;
    let mut bpos: usize = 0;
    while rem > 0 && bi < lens.len()
        invariant
            cs == cluster_size as u64,
            cs > 0,
            off + rem <= u64::MAX,
            bi <= lens@.len(),
            bi < lens@.len() ==> bpos <= lens@[bi as int],
            out@ + plan(off as int, rem as int, cs as int, lens@, bi as int, bpos as int) == whole,
        decreases rem, lens@.len() - bi,
    {
        if bpos >= lens[bi] {
            bi = bi + 1;
            bpos = 0;
        } else {
            let in_cluster = cs - off % cs;
            let in_buffer = (lens[bi] - bpos) as u64;
            let mut n = in_cluster;
            if in_buffer < n {
                n = in_buffer;
            }
            if rem < n {
                n = rem;
            }
            assert(n == min3(cs - off % cs, lens@[bi as int] - bpos, rem as int));
            let c = IoChunk { offset: off, len: n as u32, buf_index: bi, buf_offset: bpos };
            let ghost rest = plan(off + n, rem - n, cs as int, lens@, bi as int, bpos + n);
            let ghost before = out@;
            assert(plan(off as int, rem as int, cs as int, lens@, bi as int, bpos as int) == seq![c] + rest);
            out.push(c);
            assert(out@ + rest =~= before + (seq![c] + rest));
            off = off + n;
            rem = rem - n;
            bpos = bpos + n as usize;
        }
    }
    assert(plan(off as int, rem as int, cs as int, lens@, bi as int, bpos as int) =~= Seq::<IoChunk>::empty());
    assert(out@ =~= whole);
    out
}

/// Whether every step of `chunks` reads successfully from image `v`.
pub open spec fn all_readable(v: super::ImageView, chunks: Seq<IoChunk>) -> bool {
    forall|i: int| 0 <= i < chunks.len() ==> (#[trigger] read_at(v, chunks[i].offset, chunks[i].len as nat)).is_ok()
}

/// Whether every step of `chunks` landed in `bufs` with the bytes that it reads from image `v`.
pub open spec fn all_delivered(v: super::ImageView, chunks: Seq<IoChunk>, bufs: Seq<Vec<u8>>) -> bool {
    forall|i: int| 0 <= i < chunks.len() ==> {
        let c = #[trigger] chunks[i];
        read_at(v, c.offset, c.len as nat) matches Ok(d) && bufs[c.buf_index as int]@.subrange(
            c.buf_offset as int,
            c.buf_offset + c.len,
        ) == d
    }
}

/// Whether some step of `chunks` fails to read from image `v` with `e`.
pub open spec fn step_fails_with(v: super::ImageView, chunks: Seq<IoChunk>, e: IOError) -> bool {
    exists|i: int| 0 <= i < chunks.len() && #[trigger] read_at(v, chunks[i].offset, chunks[i].len as nat) == Err::<Seq<u8>, IOError>(e)
}

/// Whether every step of `chunks` reads from image `v` as the bytes it took from `bufs`.
pub open spec fn all_stored(v: super::ImageView, chunks: Seq<IoChunk>, bufs: Seq<Vec<u8>>) -> bool {
    forall|i: int| 0 <= i < chunks.len() ==> {
        let c = #[trigger] chunks[i];
        read_at(v, c.offset, c.len as nat) == Ok::<Seq<u8>, IOError>(
            bufs[c.buf_index as int]@.subrange(c.buf_offset as int, c.buf_offset + c.len),
        )
    }
}

/// Whether `a` and `b` hold buffers of the same lengths.
pub open spec fn same_lens(a: Seq<Vec<u8>>, b: Seq<Vec<u8>>) -> bool {
    a.len() == b.len() && forall|k: int| 0 <= k < a.len() ==> (#[trigger] a[k])@.len() == b[k]@.len()
}

impl QCow2BDS {
    fn read_chunks(&self, offset: u64, bytes: u64, chunks: &Vec<IoChunk>, bufs: &mut Vec<Vec<u8>>, flags: u32) -> (r: Result<(), IOError>)
        requires
            self.wf(),
            offset + bytes <= self@.disk_size,
            chunks@ == plan(offset as int, bytes as int, self@.cluster_size as int, buffer_lens(old(bufs)@), 0, 0),
        ensures
            same_lens(old(bufs)@, final(bufs)@),
            r.is_ok() <==> all_readable(self@, chunks@),
            r.is_ok() ==> all_delivered(self@, chunks@, final(bufs)@),
            r matches Err(e) ==> step_fails_with(self@, chunks@, e),
    {
        proof {
            lemma_geometry(self@);
        }
        let ghost lens = buffer_lens(bufs@);
        let ghost cs = self@.cluster_size as int;
        let nb = bufs.len();
        proof {
            lemma_plan_bounds(offset as int, bytes as int, cs, lens, 0, 0);
            lemma_plan_ordered(offset as int, bytes as int, cs, lens, 0, 0);
        }
        let ghost bufs0 = bufs@;
        let mut i: usize = 0;
        while i < chunks.len()
            invariant
                self.wf(),
                offset + bytes <= self@.disk_size,
                lens == buffer_lens(bufs0),
                bufs0 == old(bufs)@,
                nb == bufs0.len(),
                chunks@ == plan(offset as int, bytes as int, cs, lens, 0, 0),
                cs == self@.cluster_size,
                forall|k: int| 0 <= k < chunks@.len() ==> chunk_in_bounds(#[trigger] chunks@[k], offset as int, bytes as int, cs, lens, 0, 0),
                forall|a: int, b: int| 0 <= a < b < chunks@.len() ==> chunks_ordered(#[trigger] chunks@[a], #[trigger] chunks@[b]),
                i <= chunks@.len(),
                same_lens(bufs0, bufs@),
                forall|j: int| 0 <= j < i ==> (#[trigger] read_at(self@, chunks@[j].offset, chunks@[j].len as nat)).is_ok(),
                all_delivered(self@, chunks@.subrange(0, i as int), bufs@),
            decreases chunks@.len() - i,
        {
            let c = chunks[i];
            assert(chunk_in_bounds(chunks@[i as int], offset as int, bytes as int, cs, lens, 0, 0));
            let mut tmp = MNMIOVSlice::Mut(super::io::zero_buffer(c.len as usize));
            match self.read_cluster(c.offset, c.len, &mut tmp, flags) {
                Ok(()) => {},
                Err(e) => {
                    assert(read_at(self@, chunks@[i as int].offset, chunks@[i as int].len as nat) == Err::<Seq<u8>, IOError>(e));
                    return Err(e);
                },
            }
            let data = match tmp {
                MNMIOVSlice::Mut(b) => b,
                MNMIOVSlice::Const(b) => b,
            };
            let ghost prev = bufs@;
            let mut b = bufs.remove(c.buf_index);
            let blen = b.len();
            assert(bufs0[c.buf_index as int]@.len() == prev[c.buf_index as int]@.len());
            assert(b@.len() == lens[c.buf_index as int]);
            copy_into(&mut b, c.buf_offset, &data);
            bufs.insert(c.buf_index, b);
            assert(bufs@ =~= prev.update(c.buf_index as int, b));
            proof {
                let d = data@;
                assert forall|j: int| 0 <= j < i + 1 implies {
                    let cj = #[trigger] chunks@.subrange(0, i + 1)[j];
                    read_at(self@, cj.offset, cj.len as nat) matches Ok(dj) && bufs@[cj.buf_index as int]@.subrange(
                        cj.buf_offset as int,
                        cj.buf_offset + cj.len,
                    ) == dj
                } by {
                    let cj = chunks@[j];
                    assert(chunks@.subrange(0, i + 1)[j] == cj);
                    if j < i {
                        assert(chunks@.subrange(0, i as int)[j] == cj);
                        assert(chunk_in_bounds(cj, offset as int, bytes as int, cs, lens, 0, 0));
                        if cj.buf_index == c.buf_index {
                            assert(chunks_ordered(cj, c));
                            assert(bufs@[cj.buf_index as int]@.subrange(cj.buf_offset as int, cj.buf_offset + cj.len)
                                =~= prev[cj.buf_index as int]@.subrange(cj.buf_offset as int, cj.buf_offset + cj.len));
                        }
                    } else {
                        assert(bufs@[c.buf_index as int]@.subrange(c.buf_offset as int, c.buf_offset + c.len) =~= d);
                    }
                }
                assert forall|k: int| 0 <= k < bufs0.len() implies (#[trigger] bufs0[k])@.len() == bufs@[k]@.len() by {
                    assert(prev[k]@.len() == bufs0[k]@.len());
                }
            }
            i = i + 1;
        }
        assert(chunks@.subrange(0, i as int) =~= chunks@);
        Ok(())
    }

    fn write_chunks(&mut self, offset: u64, bytes: u64, chunks: &Vec<IoChunk>, bufs: &Vec<Vec<u8>>, flags: u32) -> (r: Result<(), IOError>)
        requires
            old(self).wf(),
            offset + bytes <= old(self)@.disk_size,
            chunks@ == plan(offset as int, bytes as int, old(self)@.cluster_size as int, buffer_lens(bufs@), 0, 0),
        ensures
            final(self).wf(),
            same_layout(old(self)@, final(self)@),
            r.is_ok() ==> all_stored(final(self)@, chunks@, bufs@),
    {
        proof {
            lemma_geometry(self@);
        }
        let ghost lens = buffer_lens(bufs@);
        let ghost cs = self@.cluster_size as int;
        let ghost v0 = self@;
        let nb = bufs.len();
        proof {
            lemma_plan_bounds(offset as int, bytes as int, cs, lens, 0, 0);
        }
        let mut i: usize = 0;
        while i < chunks.len()
            invariant
                self.wf(),
                v0 == old(self)@,
                same_layout(v0, self@),
                offset + bytes <= self@.disk_size,
                lens == buffer_lens(bufs@),
                chunks@ == plan(offset as int, bytes as int, cs, lens, 0, 0),
                cs == self@.cluster_size,
                forall|k: int| 0 <= k < chunks@.len() ==> chunk_in_bounds(#[trigger] chunks@[k], offset as int, bytes as int, cs, lens, 0, 0),
                i <= chunks@.len(),
            decreases chunks@.len() - i,
        {
            let c = chunks[i];
            assert(chunk_in_bounds(chunks@[i as int], offset as int, bytes as int, cs, lens, 0, 0));
            let data = copy_out(&bufs[c.buf_index], c.buf_offset, c.len as usize);
            let src = MNMIOVSlice::Const(data);
            match self.write_cluster(c.offset, c.len, &src, flags) {
                Ok(()) => {},
                Err(e) => return Err(e),
            }
            i = i + 1;
        }
        // A later step may have overwritten an earlier one's data or tables when the image's
        // structures overlap: every step is read back before success is reported.
        let mut j: usize = 0;
        while j < chunks.len()
            invariant
                self.wf(),
                offset + bytes <= self@.disk_size,
                lens == buffer_lens(bufs@),
                chunks@ == plan(offset as int, bytes as int, cs, lens, 0, 0),
                cs == self@.cluster_size,
                forall|k: int| 0 <= k < chunks@.len() ==> chunk_in_bounds(#[trigger] chunks@[k], offset as int, bytes as int, cs, lens, 0, 0),
                j <= chunks@.len(),
                v0 == old(self)@,
                same_layout(v0, self@),
                all_stored(self@, chunks@.subrange(0, j as int), bufs@),
            decreases chunks@.len() - j,
        {
            let c = chunks[j];
            assert(chunk_in_bounds(chunks@[j as int], offset as int, bytes as int, cs, lens, 0, 0));
            let want = copy_out(&bufs[c.buf_index], c.buf_offset, c.len as usize);
            let mut tmp = MNMIOVSlice::Mut(super::io::zero_buffer(c.len as usize));
            match self.read_cluster(c.offset, c.len, &mut tmp, flags) {
                Ok(()) => {},
                Err(_) => return Err(IOError::InvalidMetadata),
            }
            let got = match tmp {
                MNMIOVSlice::Mut(b) => b,
                MNMIOVSlice::Const(b) => b,
            };
            if !bytes_equal(&got, &want) {
                return Err(IOError::InvalidMetadata);
            }
            proof {
                assert forall|k: int| 0 <= k < j + 1 implies {
                    let ck = #[trigger] chunks@.subrange(0, j + 1)[k];
                    read_at(self@, ck.offset, ck.len as nat) == Ok::<Seq<u8>, IOError>(
                        bufs@[ck.buf_index as int]@.subrange(ck.buf_offset as int, ck.buf_offset + ck.len),
                    )
                } by {
                    if k < j {
                        assert(chunks@.subrange(0, j + 1)[k] == chunks@.subrange(0, j as int)[k]);
                    } else {
                        assert(got@ =~= got@.subrange(0, 0) + got@);
                    }
                }
            }
            j = j + 1;
        }
        assert(chunks@.subrange(0, j as int) =~= chunks@);
        Ok(())
    }

    /// Serves a request of `bytes` bytes at guest offset `offset` cluster by cluster: a `Mut`
    /// vector is filled by reads, a `Const` vector is written. Each step is as long as the
    /// smallest of what is left in the cluster, in the current buffer and in the request. The
    /// first failing step ends the request with its error; earlier steps are not undone. A
    /// request that passes the end of the virtual disk fails with `GenericError`.
    pub fn split_io_to_clusters(&mut self, offset: u64, bytes: u64, iov_mnm: &mut MNMIOV, flags: u32) -> (r: Result<(), IOError>)
        requires
            old(self).wf(),
        ensures
            final(self).wf(),
            same_layout(old(self)@, final(self)@),
            bytes > old(self)@.disk_size || offset > old(self)@.disk_size - bytes ==> {
                &&& r == Err::<(), IOError>(IOError::GenericError)
                &&& final(self)@ == old(self)@
            },
            match *old(iov_mnm) {
                MNMIOV::Const(b0) => *final(iov_mnm) matches MNMIOV::Const(b1) && b1@ == b0@ && (r.is_ok() ==> all_stored(
                    final(self)@,
                    plan(offset as int, bytes as int, old(self)@.cluster_size as int, buffer_lens(b0@), 0, 0),
                    b0@,
                )),
                MNMIOV::Mut(b0) => *final(iov_mnm) matches MNMIOV::Mut(b1) && {
                    let chunks = plan(offset as int, bytes as int, old(self)@.cluster_size as int, buffer_lens(b0@), 0, 0);
                    &&& final(self)@ == old(self)@
                    &&& same_lens(b0@, b1@)
                    &&& (r.is_ok() ==> all_delivered(old(self)@, chunks, b1@))
                    &&& (offset + bytes <= old(self)@.disk_size ==> (r.is_ok() <==> all_readable(old(self)@, chunks)))
                    &&& (offset + bytes <= old(self)@.disk_size ==> (r matches Err(e) ==> step_fails_with(old(self)@, chunks, e)))
                },
            },
    {
        proof {
            self.lemma_view_fields();
            lemma_geometry(self@);
        }
        if bytes > self.disk_size || offset > self.disk_size - bytes {
            return Err(IOError::GenericError);
        }
        let cluster_size = self.cluster_size;
        match iov_mnm {
            MNMIOV::Mut(bufs) => {
                let mut lens: Vec<usize> = Vec::new();
                let mut k: usize = 0;
                while k < bufs.len()
                    invariant
                        k <= bufs@.len(),
                        lens@ == buffer_lens(bufs@).subrange(0, k as int),
                    decreases bufs@.len() - k,
                {
                    lens.push(bufs[k].len());
                    k = k + 1;
                    assert(lens@ =~= buffer_lens(bufs@).subrange(0, k as int));
                }
                assert(lens@ =~= buffer_lens(bufs@));
                let chunks = plan_chunks(offset, bytes, cluster_size, &lens);
                self.read_chunks(offset, bytes, &chunks, bufs, flags)
            },
            MNMIOV::Const(bufs) => {
                let mut lens: Vec<usize> = Vec::new();
                let mut k: usize = 0;
                while k < bufs.len()
                    invariant
                        k <= bufs@.len(),
                        lens@ == buffer_lens(bufs@).subrange(0, k as int),
                    decreases bufs@.len() - k,
                {
                    lens.push(bufs[k].len());
                    k = k + 1;
                    assert(lens@ =~= buffer_lens(bufs@).subrange(0, k as int));
                }
                assert(lens@ =~= buffer_lens(bufs@));
                let chunks = plan_chunks(offset, bytes, cluster_size, &lens);
                self.write_chunks(offset, bytes, &chunks, bufs, flags)
            },
        }
    }

    /// Reads `bytes` bytes at guest offset `offset` into the buffers of `iov`, in order.
    pub fn bdrv_co_preadv(&mut self, offset: u64, bytes: u64, iov: Vec<Vec<u8>>, flags: u32) -> (r: (Result<(), IOError>, Vec<Vec<u8>>))
        requires
            old(self).wf(),
        ensures
            final(self).wf(),
            final(self)@ == old(self)@,
            same_lens(iov@, r.1@),
            r.0.is_ok() ==> all_delivered(
                old(self)@,
                plan(offset as int, bytes as int, old(self)@.cluster_size as int, buffer_lens(iov@), 0, 0),
                r.1@,
            ),
            offset + bytes <= old(self)@.disk_size ==> (r.0.is_ok() <==> all_readable(
                old(self)@,
                plan(offset as int, bytes as int, old(self)@.cluster_size as int, buffer_lens(iov@), 0, 0),
            )),
            offset + bytes > old(self)@.disk_size ==> r.0 == Err::<(), IOError>(IOError::GenericError),
            offset + bytes <= old(self)@.disk_size ==> (r.0 matches Err(e) ==> step_fails_with(
                old(self)@,
                plan(offset as int, bytes as int, old(self)@.cluster_size as int, buffer_lens(iov@), 0, 0),
                e,
            )),
    {
        let mut v = MNMIOV::Mut(iov);
        let res = self.split_io_to_clusters(offset, bytes, &mut v, flags);
        match v {
            MNMIOV::Mut(b) => (res, b),
            MNMIOV::Const(b) => (res, b),
        }
    }

    /// Writes `bytes` bytes from the buffers of `iov`, in order, to guest offset `offset`.
    pub fn bdrv_co_pwritev(&mut self, offset: u64, bytes: u64, iov: Vec<Vec<u8>>, flags: u32) -> (r: Result<(), IOError>)
        requires
            old(self).wf(),
        ensures
            final(self).wf(),
            same_layout(old(self)@, final(self)@),
            offset + bytes > old(self)@.disk_size ==> r == Err::<(), IOError>(IOError::GenericError),
            r.is_ok() ==> all_stored(
                final(self)@,
                plan(offset as int, bytes as int, old(self)@.cluster_size as int, buffer_lens(iov@), 0, 0),
                iov@,
            ),
    {
        let mut v = MNMIOV::Const(iov);
        self.split_io_to_clusters(offset, bytes, &mut v, flags)
    }
}

} // verus!
