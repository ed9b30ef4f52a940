use vstd::prelude::*;

verus! {

/// `r` is a possible result of folding `apply` over `steps`, left to right,
/// starting from `v`.
pub open spec fn folds_to<V, S, F: Fn(V, S) -> V>(apply: F, v: V, steps: Seq<S>, r: V) -> bool
    decreases steps.len(),
{
    if steps.len() == 0 {
        r == v
    } else {
        exists|m: V|
            folds_to(apply, v, steps.drop_last(), m) && #[trigger] call_ensures(
                apply,
                (m, steps.last()),
                r,
            )
    }
}

/// `terms` is a series of `count` terms: the first is `seed`, and each next
/// term is the fold of `steps` over the term before it.
pub open spec fn is_series<V, S, F: Fn(V, S) -> V>(
    apply: F,
    seed: V,
    steps: Seq<S>,
    count: nat,
    terms: Seq<V>,
) -> bool {
    &&& terms.len() == count
    &&& count > 0 ==> terms[0] == seed
    &&& forall|k: int|
        0 <= k < count - 1 ==> folds_to(apply, #[trigger] terms[k], steps, terms[k + 1])
}

/// Applies each of `instructions`, in order, to the running value that
/// starts at `value`.
pub fn apply_all<V: Copy, S: Copy, F: Fn(V, S) -> V>(
    value: V,
    instructions: &Vec<S>,
    apply: &F,
) -> (r: V)
    requires
        forall|v: V, s: S| call_requires(*apply, (v, s)),
    ensures
        folds_to(*apply, value, instructions@, r),
{
    let mut acc = value;
    let mut j: usize = 0;
    while j < instructions.len()
        invariant
            forall|v: V, s: S| call_requires(*apply, (v, s)),
            j <= instructions.len(),
            folds_to(*apply, value, instructions@.take(j as int), acc),
        decreases instructions.len() - j,
    {
        let next = apply(acc, instructions[j]);
        proof {
            let done = instructions@.take(j + 1 as int);
            assert(done.drop_last() =~= instructions@.take(j as int));
            assert(done.last() == instructions@[j as int]);
        }
        acc = next;
        j = j + 1;
    }
    assert(instructions@.take(j as int) =~= instructions@);
    acc
}

/// The first `count` terms of the series that starts at `seed` and steps
/// from each term to the next by applying all of `instructions` in order.
pub fn series<V: Copy, S: Copy, F: Fn(V, S) -> V>(
    seed: V,
    count: usize,
    instructions: &Vec<S>,
    apply: F,
) -> (terms: Vec<V>)
    requires
        forall|v: V, s: S| call_requires(apply, (v, s)),
    ensures
        is_series(apply, seed, instructions@, count as nat, terms@),
{
    let mut terms: Vec<V> = Vec::new();
    if count == 0 {
        return terms;
    }
    let mut current = seed;
    terms.push(current);
    let mut k: usize = 1;
    while k < count
        invariant
            forall|v: V, s: S| call_requires(apply, (v, s)),
            1 <= k <= count,
            terms@.len() == k,
            terms@[0] == seed,
            current == terms@[k - 1],
            forall|i: int|
                0 <= i < k - 1 ==> folds_to(apply, #[trigger] terms@[i], instructions@, terms@[i + 1]),
        decreases count - k,
    {
        let next = apply_all(current, instructions, &apply);
        terms.push(next);
        current = next;
        k = k + 1;
    }
    terms
}

/// A series of no terms is empty, whatever its seed and instructions.
pub proof fn lemma_zero_count_is_empty<V, S, F: Fn(V, S) -> V>(
    apply: F,
    seed: V,
    steps: Seq<S>,
    terms: Seq<V>,
)
    requires
        is_series(apply, seed, steps, 0, terms),
    ensures
        terms.len() == 0,
{
}

proof fn lemma_term_is_seed<V, S, F: Fn(V, S) -> V>(
    apply: F,
    seed: V,
    count: nat,
    terms: Seq<V>,
    k: int,
)
    requires
        is_series(apply, seed, Seq::<S>::empty(), count, terms),
        0 <= k < count,
    ensures
        terms[k] == seed,
    decreases k,
{
    if k > 0 {
        lemma_term_is_seed::<V, S, F>(apply, seed, count, terms, k - 1);
        assert(folds_to(apply, terms[k - 1], Seq::<S>::empty(), terms[k]));
    }
}

/// With no instructions, every term of a series equals its seed.
pub proof fn lemma_no_instructions_repeat_seed<V, S, F: Fn(V, S) -> V>(
    apply: F,
    seed: V,
    count: nat,
    terms: Seq<V>,
)
    requires
        is_series(apply, seed, Seq::<S>::empty(), count, terms),
    ensures
        forall|k: int| 0 <= k < count ==> terms[k] == seed,
{
    assert forall|k: int| 0 <= k < count implies terms[k] == seed by {
        lemma_term_is_seed::<V, S, F>(apply, seed, count, terms, k);
    }
}

} // verus!
