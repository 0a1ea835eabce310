//! The two ways of mapping: on rayon's thread pool, and on threads of its own.
//! Both map small inputs in place and split larger ones into chunks of
//! `threshold` elements, one per worker, joining the results in chunk order.

use vstd::prelude::*;
use rayon::iter::{IndexedParallelIterator, IntoParallelIterator, ParallelIterator};
use crate::chunking::{chunk_at, chunk_count, worker_count};
use crate::mapping::{callable_on, lemma_chunked_map, map_sequential, maps_to};
use crate::vecs::concat_parts;

verus! {

/// Input length from which the work is split between workers.
pub const THRESHOLD: usize = 100;

/// Relies on rayon's `IndexedParallelIterator::chunks`, which hands out the
/// elements in consecutive `Vec`s of `size` elements, the last one possibly
/// shorter, and panics on a zero size; and on `map` followed by `collect` into
/// a `Vec`, which keeps the order of the chunks. Each chunk is mapped by
/// `map_sequential`.
#[verifier::external_body]
fn par_map_chunks<T: Send, R: Send, F: Fn(T) -> R + Sync>(input: Vec<T>, size: usize, f: &F) -> (parts: Vec<Vec<R>>)
    requires
        size > 0,
        callable_on(*f, input@),
    ensures
        parts@.len() == chunk_count(input@.len() as int, size as int),
        forall|j: int|
            0 <= j < parts@.len() ==> maps_to(*f, chunk_at(input@, size as int, j), #[trigger] parts@[j]@),
{
    input.into_par_iter().chunks(size).map(|chunk| map_sequential(chunk, f)).collect()
}

/// Maps `input` through `f`: in place below `threshold` elements, otherwise
/// chunk by chunk on rayon's thread pool.
pub fn split_map_rayon<T: Send, R: Send, F: Fn(T) -> R + Sync>(input: Vec<T>, f: F, threshold: usize) -> (output: Vec<R>)
    requires
        threshold > 0,
        callable_on(f, input@),
    ensures
        maps_to(f, input@, output@),
{
    if worker_count(input.len(), threshold) == 0 {
        map_sequential(input, &f)
    } else {
        let ghost s = input@;
        let parts = par_map_chunks(input, threshold, &f);
        proof {
            lemma_chunked_map(f, s, threshold as int, parts@);
        }
        concat_parts(parts)
    }
}

/// Maps `input` through `f` with the default threshold, on rayon's thread
/// pool from that threshold on.
pub fn splitter_with_rayon<T: Send, R: Send, F: Fn(T) -> R + Sync>(input: Vec<T>, f: F) -> (output: Vec<R>)
    requires
        callable_on(f, input@),
    ensures
        maps_to(f, input@, output@),
{
    split_map_rayon(input, f, THRESHOLD)
}

} // verus!
