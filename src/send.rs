//! The send side: fragments of a file and the batch windows they go out in.
use vstd::prelude::*;
use crate::checksum::crc32_of;
use crate::plan::{chunk_count_of, chunk_of, min_int, lemma_chunk_index, split_into_chunks};
use crate::reassembly::Fragment;

verus! {

/// One batch window: the fragments with ids `start..end` are in flight together.
#[derive(Debug, Clone, Copy, PartialEq, Eq, Structural)]
pub struct Batch {
    pub start: u32,
    pub end: u32,
}

/// The fragments of `data` cut in chunks of `chunk_size`, ids from 0 in file order,
/// each with the checksum of its payload.
pub fn prepare_fragments(data: &[u8], chunk_size: usize) -> (r: Vec<Fragment>)
    requires
        0 < chunk_size <= u32::MAX,
        chunk_count_of(data@.len() as int, chunk_size as int) <= u32::MAX,
    ensures
        r@.len() == chunk_count_of(data@.len() as int, chunk_size as int),
        forall|i: int|
            0 <= i < r@.len() ==> (#[trigger] r@[i]).id == i && r@[i].payload@ == chunk_of(
                data@,
                chunk_size as int,
                i,
            ) && r@[i].checksum == crc32_of(r@[i].payload@),
{
    let mut chunks = split_into_chunks(data, chunk_size);
    let n = chunks.len();
    let mut r: Vec<Fragment> = Vec::new();
    let mut i: usize = 0;
    let ghost all = chunks@;
    while i < n
        invariant
            n == all.len(),
            all.len() <= u32::MAX,
            chunks@.len() == n,
            i <= n,
            r@.len() == i,
            forall|j: int| i <= j < n ==> chunks@[j] == all[j],
            forall|j: int|
                0 <= j < all.len() ==> (#[trigger] all[j])@ == chunk_of(data@, chunk_size as int, j),
            forall|j: int|
                0 <= j < i ==> (#[trigger] r@[j]).id == j && r@[j].payload@ == all[j]@
                    && r@[j].checksum == crc32_of(r@[j].payload@),
        decreases n - i,
    {
        let mut chunk: Vec<u8> = Vec::new();
        std::mem::swap(&mut chunk, &mut chunks[i]);
        r.push(Fragment::new(i as u32, chunk));
        i = i + 1;
    }
    r
}

/// The batch windows for `count` fragments with at most `thread_limit` in flight:
/// window `j` holds ids `j * thread_limit` up to the next window or `count`.
pub fn plan_batches(count: u32, thread_limit: usize) -> (r: Vec<Batch>)
    requires
        thread_limit > 0,
    ensures
        r@.len() == chunk_count_of(count as int, thread_limit as int),
        forall|j: int|
            0 <= j < r@.len() ==> (#[trigger] r@[j]).start == j * thread_limit && r@[j].end
                == min_int((j + 1) * thread_limit, count as int),
        forall|j: int|
            0 <= j < r@.len() ==> 0 < (#[trigger] r@[j]).end - r@[j].start <= thread_limit,
{
    let ghost w = thread_limit as int;
    let mut r: Vec<Batch> = Vec::new();
    let mut start: u32 = 0;
    let mut j: usize = 0;
    proof {
        lemma_chunk_index(count as int, w, 0);
    }
    while start < count
        invariant
            w == thread_limit as int,
            w > 0,
            start as int == min_int(j * w, count as int),
            0 <= j <= chunk_count_of(count as int, w),
            r@.len() == j,
            forall|x: int|
                0 <= x < r@.len() ==> (#[trigger] r@[x]).start == x * w && r@[x].end == min_int(
                    (x + 1) * w,
                    count as int,
                ),
            forall|x: int| 0 <= x < r@.len() ==> 0 < (#[trigger] r@[x]).end - r@[x].start <= w,
        decreases count - start,
    {
        proof {
            lemma_chunk_index(count as int, w, j as int);
            assert((j + 1) * w == j * w + w) by (nonlinear_arith);
            assert(j <= j * w) by (nonlinear_arith)
                requires
                    w > 0,
                    j >= 0,
            ;
        }
        let end: u32 = if ((count - start) as usize) > thread_limit {
            start + thread_limit as u32
        } else {
            count
        };
        r.push(Batch { start, end });
        start = end;
        j = j + 1;
        proof {
            lemma_chunk_index(count as int, w, j as int);
        }
    }
    proof {
        lemma_chunk_index(count as int, w, j as int);
    }
    r
}

/// Whether window `x` of batches of `thread_limit` over `count` fragments holds `id`.
pub open spec fn window_holds(count: int, thread_limit: int, x: int, id: int) -> bool {
    x * thread_limit <= id < min_int((x + 1) * thread_limit, count)
}

/// Every fragment id below `count` lies in exactly one batch window.
pub proof fn lemma_batches_cover(count: nat, thread_limit: nat, id: int)
    requires
        thread_limit > 0,
        0 <= id < count,
    ensures
        ({
            let j = id / thread_limit as int;
            &&& 0 <= j < chunk_count_of(count as int, thread_limit as int)
            &&& window_holds(count as int, thread_limit as int, j, id)
        }),
        forall|x: int|
            0 <= x && #[trigger] window_holds(count as int, thread_limit as int, x, id) ==> x == id
                / thread_limit as int,
{
    let w = thread_limit as int;
    let j = id / w;
    vstd::arithmetic::div_mod::lemma_fundamental_div_mod(id, w);
    vstd::arithmetic::div_mod::lemma_div_pos_is_pos(id, w);
    assert(j * w <= id < (j + 1) * w) by (nonlinear_arith)
        requires
            id == w * j + id % w,
            0 <= id % w < w,
    ;
    assert(j * w < count) by (nonlinear_arith)
        requires
            j * w <= id,
            id < count,
    ;
    lemma_chunk_index(count as int, w, j);
    assert forall|x: int|
        0 <= x && #[trigger] window_holds(count as int, w, x, id) implies x == j by {
        assert(x * w <= id < (x + 1) * w);
        if x < j {
            assert((x + 1) * w <= j * w) by (nonlinear_arith)
                requires
                    x + 1 <= j,
                    w > 0,
            ;
        } else if x > j {
            assert((j + 1) * w <= x * w) by (nonlinear_arith)
                requires
                    j + 1 <= x,
                    w > 0,
            ;
        }
    }
}

} // verus!
