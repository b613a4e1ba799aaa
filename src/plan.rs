//! How a file is cut into chunks, and how the chunks join back.
use vstd::prelude::*;

verus! {

/// The number of chunks of `chunk_size` bytes that hold `total` bytes.
pub open spec fn chunk_count_of(total: int, chunk_size: int) -> int {
    if total % chunk_size == 0 {
        total / chunk_size
    } else {
        total / chunk_size + 1
    }
}

/// The smaller of two integers.
pub open spec fn min_int(a: int, b: int) -> int {
    if a <= b {
        a
    } else {
        b
    }
}

/// Chunk `i` of `data`: the bytes from `i * chunk_size` up to the next chunk or the end.
pub open spec fn chunk_of(data: Seq<u8>, chunk_size: int, i: int) -> Seq<u8> {
    data.subrange(i * chunk_size, min_int((i + 1) * chunk_size, data.len() as int))
}

/// The first `k` chunks of `data`.
pub open spec fn chunks_of(data: Seq<u8>, chunk_size: int, k: int) -> Seq<Seq<u8>> {
    Seq::new(k as nat, |i: int| chunk_of(data, chunk_size, i))
}

/// The byte sequences of `parts` one after the other.
pub open spec fn concat(parts: Seq<Seq<u8>>) -> Seq<u8>
    decreases parts.len(),
{
    if parts.len() == 0 {
        Seq::empty()
    } else {
        concat(parts.drop_last()) + parts.last()
    }
}

/// A chunk index lies below the chunk count exactly when the chunk starts inside the data.
pub proof fn lemma_chunk_index(total: int, chunk_size: int, i: int)
    requires
        total >= 0,
        chunk_size > 0,
        i >= 0,
    ensures
        (i < chunk_count_of(total, chunk_size)) == (i * chunk_size < total),
        chunk_count_of(total, chunk_size) >= 0,
{
    let q = total / chunk_size;
    let r = total % chunk_size;
    assert(total == q * chunk_size + r && 0 <= r < chunk_size && q >= 0) by {
        vstd::arithmetic::div_mod::lemma_fundamental_div_mod(total, chunk_size);
        vstd::arithmetic::div_mod::lemma_div_pos_is_pos(total, chunk_size);
    }
    if i < q {
        assert(i * chunk_size < total) by (nonlinear_arith)
            requires
                i < q,
                total == q * chunk_size + r,
                0 <= r,
                chunk_size > 0,
        ;
    } else if i == q {
        assert(i * chunk_size == q * chunk_size);
    } else {
        assert(i * chunk_size >= total) by (nonlinear_arith)
            requires
                i >= q + 1,
                total == q * chunk_size + r,
                r < chunk_size,
                chunk_size > 0,
        ;
    }
}

/// The first `k` chunks joined give the first `k * chunk_size` bytes of the data, or all of it.
pub proof fn lemma_chunks_prefix(data: Seq<u8>, chunk_size: int, k: int)
    requires
        chunk_size > 0,
        0 <= k <= chunk_count_of(data.len() as int, chunk_size),
    ensures
        concat(chunks_of(data, chunk_size, k)) == data.subrange(
            0,
            min_int(k * chunk_size, data.len() as int),
        ),
    decreases k,
{
    let len = data.len() as int;
    if k == 0 {
        assert(data.subrange(0, 0) =~= Seq::<u8>::empty());
    } else {
        lemma_chunks_prefix(data, chunk_size, k - 1);
        lemma_chunk_index(len, chunk_size, k - 1);
        assert(chunks_of(data, chunk_size, k).drop_last() =~= chunks_of(data, chunk_size, k - 1));
        assert((k - 1) * chunk_size + chunk_size == k * chunk_size) by (nonlinear_arith);
        assert(data.subrange(0, min_int(k * chunk_size, len)) =~= data.subrange(
            0,
            (k - 1) * chunk_size,
        ) + chunk_of(data, chunk_size, k - 1));
    }
}

/// The chunks of `data`, joined in order, give `data` back.
pub proof fn lemma_chunks_join(data: Seq<u8>, chunk_size: int)
    requires
        chunk_size > 0,
    ensures
        concat(chunks_of(data, chunk_size, chunk_count_of(data.len() as int, chunk_size)))
            == data,
{
    let len = data.len() as int;
    let n = chunk_count_of(len, chunk_size);
    lemma_chunk_index(len, chunk_size, n);
    lemma_chunks_prefix(data, chunk_size, n);
    assert(data.subrange(0, len) =~= data);
}

/// The number of chunks of `chunk_size` bytes that hold `total` bytes.
pub fn chunk_count(total: u64, chunk_size: u64) -> (r: u64)
    requires
        chunk_size > 0,
    ensures
        r == chunk_count_of(total as int, chunk_size as int),
{
    if total % chunk_size == 0 {
        total / chunk_size
    } else {
        proof {
            vstd::arithmetic::div_mod::lemma_div_is_ordered_by_denominator(
                total as int,
                2,
                chunk_size as int,
            );
        }
        total / chunk_size + 1
    }
}

/// `data` cut into chunks of `chunk_size` bytes; only the last may be shorter, and none is empty.
pub fn split_into_chunks(data: &[u8], chunk_size: usize) -> (r: Vec<Vec<u8>>)
    requires
        chunk_size > 0,
    ensures
        r@.len() == chunk_count_of(data@.len() as int, chunk_size as int),
        forall|i: int| 0 <= i < r@.len() ==> #[trigger] r@[i]@ == chunk_of(data@, chunk_size as int, i),
{
    let len = data.len();
    let ghost c = chunk_size as int;
    let mut r: Vec<Vec<u8>> = Vec::new();
    let mut start: usize = 0;
    let mut i: usize = 0;
    proof {
        lemma_chunk_index(len as int, c, 0);
    }
    while start < len
        invariant
            len == data@.len(),
            c == chunk_size as int,
            c > 0,
            start as int == min_int(i * c, len as int),
            0 <= i <= chunk_count_of(len as int, c),
            r@.len() == i,
            forall|j: int| 0 <= j < r@.len() ==> #[trigger] r@[j]@ == chunk_of(data@, c, j),
        decreases len - start,
    {
        proof {
            lemma_chunk_index(len as int, c, i as int);
            assert((i + 1) * c == i * c + c) by (nonlinear_arith);
            assert(i <= i * c) by (nonlinear_arith)
                requires
                    c > 0,
                    i >= 0,
            ;
        }
        let end: usize = if len - start > chunk_size {
            start + chunk_size
        } else {
            len
        };
        let chunk = crate::codec::copy_range(data, start, end);
        r.push(chunk);
        start = end;
        i = i + 1;
        proof {
            lemma_chunk_index(len as int, c, i as int);
        }
    }
    proof {
        lemma_chunk_index(len as int, c, i as int);
    }
    r
}

} // verus!
