//! Moving whole vectors around: reversing, and joining in order.

use vstd::prelude::*;

verus! {

/// The elements of `v` in reverse order.
pub fn reversed<X>(v: Vec<X>) -> (r: Vec<X>)
    ensures
        r@ == v@.reverse(),
{
    let ghost s = v@;
    let mut v = v;
    let mut r: Vec<X> = Vec::new();
    while v.len() > 0
        invariant
            v@ == s.subrange(0, v@.len() as int),
            r@.len() + v@.len() == s.len(),
            forall|t: int| 0 <= t < r@.len() ==> #[trigger] r@[t] == s[s.len() - 1 - t],
        decreases v@.len(),
    {
        let x = v.pop().unwrap();
        r.push(x);
    }
    assert(r@ =~= s.reverse());
    r
}

/// The elements of all `parts`, the first part's first.
pub open spec fn joined<X>(parts: Seq<Vec<X>>) -> Seq<X> {
    parts.map_values(|v: Vec<X>| v@).flatten()
}

/// Joining one more part adds its elements at the end.
pub proof fn lemma_joined_take_next<X>(parts: Seq<Vec<X>>, d: int)
    requires
        0 <= d < parts.len(),
    ensures
        joined(parts.take(d + 1)) == joined(parts.take(d)) + parts[d]@,
{
    let before = parts.take(d).map_values(|v: Vec<X>| v@);
    assert(parts.take(d + 1).map_values(|v: Vec<X>| v@) =~= before.push(parts[d]@));
    before.lemma_flatten_push(parts[d]@);
}

/// Joins `parts` into one vector, keeping the order of the parts and of the
/// elements within each.
pub fn concat_parts<X>(parts: Vec<Vec<X>>) -> (r: Vec<X>)
    ensures
        r@ == joined(parts@),
{
    let ghost ps = parts@;
    let mut pending = reversed(parts);
    let mut r: Vec<X> = Vec::new();
    proof {
        assert(ps.take(0).map_values(|v: Vec<X>| v@) =~= Seq::<Seq<X>>::empty());
    }
    while pending.len() > 0
        invariant
            pending@.len() <= ps.len(),
            forall|t: int|
                0 <= t < pending@.len() ==> #[trigger] pending@[t] == ps[ps.len() - 1 - t],
            r@ == joined(ps.take(ps.len() - pending@.len())),
        decreases pending@.len(),
    {
        let ghost d = ps.len() - pending@.len();
        let mut part = pending.pop().unwrap();
        proof {
            lemma_joined_take_next(ps, d);
        }
        r.append(&mut part);
    }
    proof {
        assert(ps.take(ps.len() as int) =~= ps);
    }
    r
}

} // verus!
