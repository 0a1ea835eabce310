//! Applying a transform to every element, and what it means for a result to
//! be the image of an input.

use vstd::prelude::*;
use crate::chunking::{chunk_at, chunk_count, chunk_start, lemma_chunk_count_bounds, lemma_chunk_inside};
use crate::vecs::{joined, lemma_joined_take_next, reversed};

verus! {

/// `f` may be called on every element of `input`.
pub open spec fn callable_on<T, R, F: Fn(T) -> R>(f: F, input: Seq<T>) -> bool {
    forall|i: int| 0 <= i < input.len() ==> f.requires((#[trigger] input[i],))
}

/// `output` is `f` applied to `input` element by element, in order: it has
/// the same length, and each of its elements is what `f` gives on the element
/// of `input` at the same index.
pub open spec fn maps_to<T, R, F: Fn(T) -> R>(f: F, input: Seq<T>, output: Seq<R>) -> bool {
    &&& output.len() == input.len()
    &&& forall|i: int| 0 <= i < input.len() ==> f.ensures((input[i],), #[trigger] output[i])
}

/// `f` is a function in the mathematical sense: every call on one argument
/// gives one and the same value.
pub open spec fn is_pure<T, R, F: Fn(T) -> R>(f: F) -> bool {
    forall|x: T, a: R, b: R| f.ensures((x,), a) && f.ensures((x,), b) ==> a == b
}

/// Images of two pieces, put side by side, are the image of the two pieces
/// put side by side.
pub proof fn lemma_maps_to_concat<T, R, F: Fn(T) -> R>(
    f: F,
    a: Seq<T>,
    x: Seq<R>,
    b: Seq<T>,
    y: Seq<R>,
)
    requires
        maps_to(f, a, x),
        maps_to(f, b, y),
    ensures
        maps_to(f, a + b, x + y),
{
    assert forall|i: int| 0 <= i < (a + b).len() implies f.ensures(((a + b)[i],), #[trigger] (x
        + y)[i]) by {
        if i >= a.len() {
            assert((a + b)[i] == b[i - a.len()]);
            assert((x + y)[i] == y[i - x.len()]);
        }
    }
}

/// Results of the first `d` chunks, joined, are the image of the input up to
/// where chunk `d` starts.
proof fn lemma_chunked_map_prefix<T, R, F: Fn(T) -> R>(
    f: F,
    s: Seq<T>,
    size: int,
    parts: Seq<Vec<R>>,
    d: int,
)
    requires
        size > 0,
        parts.len() == chunk_count(s.len() as int, size),
        forall|j: int| 0 <= j < parts.len() ==> maps_to(f, chunk_at(s, size, j), #[trigger] parts[j]@),
        0 <= d <= parts.len(),
    ensures
        maps_to(f, s.subrange(0, chunk_start(s.len() as int, size, d)), joined(parts.take(d))),
    decreases d,
{
    let n = s.len() as int;
    if d == 0 {
        assert(0 * size == 0);
        assert(parts.take(0).map_values(|v: Vec<R>| v@) =~= Seq::<Seq<R>>::empty());
    } else {
        lemma_chunked_map_prefix(f, s, size, parts, d - 1);
        lemma_chunk_inside(n, size, d - 1);
        lemma_joined_take_next(parts, d - 1);
        lemma_maps_to_concat(
            f,
            s.subrange(0, chunk_start(n, size, d - 1)),
            joined(parts.take(d - 1)),
            chunk_at(s, size, d - 1),
            parts[d - 1]@,
        );
        assert(s.subrange(0, chunk_start(n, size, d)) =~= s.subrange(
            0,
            chunk_start(n, size, d - 1),
        ) + chunk_at(s, size, d - 1));
    }
}

/// Mapping chunk by chunk and joining the results in chunk order maps the
/// whole input: each result stands at the index of its input element.
pub proof fn lemma_chunked_map<T, R, F: Fn(T) -> R>(
    f: F,
    s: Seq<T>,
    size: int,
    parts: Seq<Vec<R>>,
)
    requires
        size > 0,
        parts.len() == chunk_count(s.len() as int, size),
        forall|j: int| 0 <= j < parts.len() ==> maps_to(f, chunk_at(s, size, j), #[trigger] parts[j]@),
    ensures
        maps_to(f, s, joined(parts)),
{
    let n = s.len() as int;
    if n > 0 {
        lemma_chunk_count_bounds(n, size);
    } else {
        assert(0 * size == 0);
    }
    lemma_chunked_map_prefix(f, s, size, parts, parts.len() as int);
    assert(s.subrange(0, n) =~= s);
    assert(parts.take(parts.len() as int) =~= parts);
}

/// For a pure transform there is one image of an input: any two results that
/// map the input, by whichever path they were computed, are equal.
pub proof fn lemma_paths_agree<T, R, F: Fn(T) -> R>(f: F, input: Seq<T>, a: Seq<R>, b: Seq<R>)
    requires
        is_pure(f),
        maps_to(f, input, a),
        maps_to(f, input, b),
    ensures
        a == b,
{
    assert forall|i: int| 0 <= i < a.len() implies a[i] == b[i] by {
        assert(f.ensures((input[i],), a[i]));
        assert(f.ensures((input[i],), b[i]));
    }
    assert(a =~= b);
}

/// Applies `f` to each element of `input` in order, on the calling thread.
pub fn map_sequential<T, R, F: Fn(T) -> R>(input: Vec<T>, f: &F) -> (output: Vec<R>)
    requires
        callable_on(*f, input@),
    ensures
        maps_to(*f, input@, output@),
{
    let ghost s = input@;
    let mut pending = reversed(input);
    let mut output: Vec<R> = Vec::new();
    while pending.len() > 0
        invariant
            callable_on(*f, s),
            pending@.len() + output@.len() == s.len(),
            forall|t: int|
                0 <= t < pending@.len() ==> #[trigger] pending@[t] == s[s.len() - 1 - t],
            forall|i: int| 0 <= i < output@.len() ==> f.ensures((s[i],), #[trigger] output@[i]),
        decreases pending@.len(),
    {
        let x = pending.pop().unwrap();
        let y = f(x);
        output.push(y);
    }
    output
}

} // verus!
