//! How an input is cut into chunks, as a model and as executable code.

use vstd::prelude::*;

verus! {

/// Number of chunks of at most `size` elements that cover `len` elements.
pub open spec fn chunk_count(len: int, size: int) -> int {
    if len <= 0 {
        0
    } else {
        (len - 1) / size + 1
    }
}

/// Where chunk `j` starts (inclusive) in a sequence of `len` elements.
pub open spec fn chunk_start(len: int, size: int, j: int) -> int {
    vstd::math::min(j * size, len)
}

/// Chunk `j` of `s`: the elements from `j * size` up to `(j + 1) * size`,
/// the last chunk being cut short by the end of `s`.
pub open spec fn chunk_at<T>(s: Seq<T>, size: int, j: int) -> Seq<T> {
    s.subrange(chunk_start(s.len() as int, size, j), chunk_start(s.len() as int, size, j + 1))
}

/// Whether `chunks` is the chunking of `s` with chunks of `size` elements.
pub open spec fn is_chunking<T>(s: Seq<T>, size: int, chunks: Seq<Vec<T>>) -> bool {
    &&& chunks.len() == chunk_count(s.len() as int, size)
    &&& forall|j: int| 0 <= j < chunks.len() ==> #[trigger] chunks[j]@ == chunk_at(s, size, j)
}

/// The chunk count is the least number of chunks of `size` elements that
/// reach the end: chunk `count - 1` starts before the end, chunk `count` at or
/// beyond it.
pub proof fn lemma_chunk_count_bounds(len: int, size: int)
    requires
        len > 0,
        size > 0,
    ensures
        (chunk_count(len, size) - 1) * size < len <= chunk_count(len, size) * size,
        chunk_count(len, size) >= 1,
{
    let q = (len - 1) / size;
    let r = (len - 1) % size;
    assert(len - 1 == q * size + r && 0 <= r < size) by (nonlinear_arith)
        requires
            size > 0,
            q == (len - 1) / size,
            r == (len - 1) % size,
    ;
    assert(q >= 0) by (nonlinear_arith)
        requires
            len > 0,
            size > 0,
            q == (len - 1) / size,
    ;
    assert((q + 1) * size == q * size + size) by (nonlinear_arith);
}

/// Chunks before the chunk count start strictly inside the sequence, and are
/// never empty.
pub proof fn lemma_chunk_inside(len: int, size: int, j: int)
    requires
        size > 0,
        0 <= j < chunk_count(len, size),
    ensures
        j * size < len,
        chunk_start(len, size, j) == j * size,
        chunk_start(len, size, j) < chunk_start(len, size, j + 1),
        chunk_start(len, size, j + 1) - chunk_start(len, size, j) <= size,
{
    lemma_chunk_count_bounds(len, size);
    let k = chunk_count(len, size);
    assert(j * size <= (k - 1) * size) by (nonlinear_arith)
        requires
            j <= k - 1,
            size > 0,
    ;
    assert((j + 1) * size == j * size + size) by (nonlinear_arith);
}

/// The first `d` chunks of `s`, joined in order, are the prefix of `s` up to
/// where chunk `d` starts.
proof fn lemma_chunks_prefix<T>(s: Seq<T>, size: int, d: int)
    requires
        size > 0,
        0 <= d <= chunk_count(s.len() as int, size),
    ensures
        Seq::new(d as nat, |j: int| chunk_at(s, size, j)).flatten() == s.subrange(
            0,
            chunk_start(s.len() as int, size, d),
        ),
    decreases d,
{
    let n = s.len() as int;
    if d == 0 {
        assert(0 * size == 0);
        assert(Seq::new(0, |j: int| chunk_at(s, size, j)) =~= Seq::<Seq<T>>::empty());
        assert(s.subrange(0, 0) =~= Seq::<T>::empty());
    } else {
        lemma_chunks_prefix(s, size, d - 1);
        lemma_chunk_inside(n, size, d - 1);
        let before = Seq::new((d - 1) as nat, |j: int| chunk_at(s, size, j));
        assert(Seq::new(d as nat, |j: int| chunk_at(s, size, j)) =~= before.push(
            chunk_at(s, size, d - 1),
        ));
        before.lemma_flatten_push(chunk_at(s, size, d - 1));
        assert(s.subrange(0, chunk_start(n, size, d)) =~= s.subrange(
            0,
            chunk_start(n, size, d - 1),
        ) + chunk_at(s, size, d - 1));
    }
}

/// The chunks of a sequence partition it: joined in order, with nothing
/// between them and nothing left over, they give the sequence back.
pub proof fn lemma_chunks_partition<T>(s: Seq<T>, size: int)
    requires
        size > 0,
    ensures
        Seq::new(chunk_count(s.len() as int, size) as nat, |j: int| chunk_at(s, size, j)).flatten()
            == s,
{
    let n = s.len() as int;
    let k = chunk_count(n, size);
    if n > 0 {
        lemma_chunk_count_bounds(n, size);
    }
    lemma_chunks_prefix(s, size, k);
    assert(s.subrange(0, n) =~= s);
}

/// Number of workers a call creates: none below the threshold, one per chunk
/// from the threshold on.
pub open spec fn spec_worker_count(len: int, threshold: int) -> int {
    if len < threshold {
        0
    } else {
        chunk_count(len, threshold)
    }
}

/// An input one element short of the threshold is mapped with no worker;
/// any input of at least the threshold gets one worker per chunk, so at
/// least one.
pub proof fn lemma_threshold_boundary(threshold: int, len: int)
    requires
        threshold > 0,
        len >= 0,
    ensures
        spec_worker_count(threshold - 1, threshold) == 0,
        len >= threshold ==> spec_worker_count(len, threshold) == chunk_count(len, threshold),
        len >= threshold ==> spec_worker_count(len, threshold) >= 1,
{
    if len > 0 {
        lemma_chunk_count_bounds(len, threshold);
    }
}

/// How many workers an input of `len` elements is given.
pub fn worker_count(len: usize, threshold: usize) -> (r: usize)
    requires
        threshold > 0,
    ensures
        r == spec_worker_count(len as int, threshold as int),
{
    if len < threshold {
        0
    } else {
        (len - 1) / threshold + 1
    }
}

/// Cuts `input` into consecutive chunks of `size` elements, the last one
/// possibly shorter. An empty input gives no chunk.
pub fn split_chunks<T>(input: Vec<T>, size: usize) -> (chunks: Vec<Vec<T>>)
    requires
        size > 0,
    ensures
        is_chunking(input@, size as int, chunks@),
{
    let ghost s = input@;
    let n = input.len();
    let count: usize = if n == 0 {
        0
    } else {
        (n - 1) / size + 1
    };
    proof {
        if n > 0 {
            lemma_chunk_count_bounds(n as int, size as int);
        }
    }
    let mut rest = input;
    // Cut from the back, so each cut moves one chunk only.
    let mut backwards: Vec<Vec<T>> = Vec::new();
    let mut i: usize = count;
    while i > 0
        invariant
            size > 0,
            n == s.len(),
            count == chunk_count(n as int, size as int),
            0 <= i <= count,
            rest@ == s.subrange(0, chunk_start(n as int, size as int, i as int)),
            backwards@.len() == count - i,
            forall|t: int|
                0 <= t < backwards@.len() ==> #[trigger] backwards@[t]@ == chunk_at(
                    s,
                    size as int,
                    count - 1 - t,
                ),
        decreases i,
    {
        proof {
            lemma_chunk_inside(n as int, size as int, i - 1);
        }
        let start: usize = (i - 1) * size;
        let piece = rest.split_off(start);
        backwards.push(piece);
        i = i - 1;
    }
    let chunks = crate::vecs::reversed(backwards);
    chunks
}

} // verus!
