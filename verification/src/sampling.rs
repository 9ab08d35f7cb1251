//! Enumeration of the joint-sample grid used for workspace analysis.
//!
//! Each joint is sampled at `samples` evenly spaced positions of its range,
//! and every combination of one sample per joint is visited once. This module
//! produces those combinations as index tuples, in lexicographic order (the
//! first joint varies slowest); turning an index into an angle is a matter of
//! the joint's range.

use vstd::prelude::*;
use vstd::arithmetic::power::{pow, lemma_pow_positive};
use vstd::arithmetic::div_mod::{
    lemma_fundamental_div_mod, lemma_fundamental_div_mod_converse_div,
    lemma_fundamental_div_mod_converse_mod,
};

verus! {

/// The number a tuple of sample indices stands for, read as a base-`samples`
/// numeral with its first entry most significant.
pub open spec fn tuple_value(t: Seq<usize>, samples: nat) -> int
    decreases t.len(),
{
    if t.len() == 0 {
        0
    } else {
        t[0] * pow(samples as int, (t.len() - 1) as nat) + tuple_value(t.drop_first(), samples)
    }
}

/// Every entry of `t` is a valid sample index.
pub open spec fn is_index_tuple(t: Seq<usize>, samples: nat) -> bool {
    forall|d: int| 0 <= d < t.len() ==> #[trigger] t[d] < samples
}

/// `combos` lists every way of picking one of `samples` indices for each of
/// `n_joints` joints, in lexicographic order: the tuple at position `j` has
/// one valid index per joint and is `j` written in base `samples`.
pub open spec fn enumerates_sample_grid(combos: Seq<Seq<usize>>, n_joints: nat, samples: nat) -> bool {
    &&& combos.len() == pow(samples as int, n_joints)
    &&& forall|j: int|
        0 <= j < combos.len() ==> {
            &&& (#[trigger] combos[j]).len() == n_joints
            &&& is_index_tuple(combos[j], samples)
            &&& tuple_value(combos[j], samples) == j
        }
}

/// All tuples that extend `prefix` by `depth` more indices below `samples`,
/// in the order in which a depth-first walk that tries the smaller index
/// first meets them.
spec fn extensions(prefix: Seq<usize>, depth: nat, samples: usize) -> Seq<Seq<usize>>
    decreases depth, 1int, 0int,
{
    if depth == 0 {
        seq![prefix]
    } else {
        extensions_from(prefix, depth, samples, 0)
    }
}

/// The part of `extensions(prefix, depth, samples)` whose next index is at
/// least `first`.
spec fn extensions_from(prefix: Seq<usize>, depth: nat, samples: usize, first: nat) -> Seq<Seq<usize>>
    decreases depth, 0int, samples - first,
{
    if depth == 0 || first >= samples {
        seq![]
    } else {
        extensions(prefix.push(first as usize), (depth - 1) as nat, samples)
            + extensions_from(prefix, depth, samples, first + 1)
    }
}


/// Shape of `extensions_from`: block `q` of `pow(samples, depth - 1)` tuples
/// holds the extensions of `prefix` by index `first + q`.
proof fn lemma_extensions_from(prefix: Seq<usize>, depth: nat, samples: usize, first: nat)
    requires
        depth > 0,
        first <= samples,
    ensures
        ({
            let p = pow(samples as int, (depth - 1) as nat);
            &&& extensions_from(prefix, depth, samples, first).len() == (samples - first) * p
            &&& forall|j: int|
                0 <= j < (samples - first) * p ==> #[trigger] extensions_from(
                    prefix,
                    depth,
                    samples,
                    first,
                )[j] == extensions(prefix.push((first + j / p) as usize), (depth - 1) as nat, samples)[j % p]
        }),
    decreases depth, 0int, samples - first,
{
    let p = pow(samples as int, (depth - 1) as nat);
    if first == samples {
        assert((samples - first) * p == 0) by (nonlinear_arith)
            requires samples - first == 0;
    } else {
        lemma_pow_positive(samples as int, (depth - 1) as nat);
        lemma_extensions(prefix.push(first as usize), (depth - 1) as nat, samples);
        lemma_extensions_from(prefix, depth, samples, first + 1);
        let a = extensions(prefix.push(first as usize), (depth - 1) as nat, samples);
        let b = extensions_from(prefix, depth, samples, first + 1);
        assert((samples - first) * p == p + (samples - (first + 1)) * p) by (nonlinear_arith);
        assert forall|j: int|
            0 <= j < (samples - first) * p implies #[trigger] extensions_from(
                prefix,
                depth,
                samples,
                first,
            )[j] == extensions(prefix.push((first + j / p) as usize), (depth - 1) as nat, samples)[j % p]
        by {
            if j < p {
                lemma_fundamental_div_mod_converse_div(j, p, 0, j);
                lemma_fundamental_div_mod_converse_mod(j, p, 0, j);
            } else {
                let jj = j - p;
                lemma_fundamental_div_mod(jj, p);
                let q = jj / p;
                let r = jj % p;
                assert(j == (q + 1) * p + r) by (nonlinear_arith)
                    requires jj == p * q + r, j == jj + p;
                lemma_fundamental_div_mod_converse_div(j, p, q + 1, r);
                lemma_fundamental_div_mod_converse_mod(j, p, q + 1, r);
            }
        }
    }
}

/// Shape of `extensions`: the tuple at position `j` is `prefix` followed by
/// the base-`samples` digits of `j`.
proof fn lemma_extensions(prefix: Seq<usize>, depth: nat, samples: usize)
    ensures
        extensions(prefix, depth, samples).len() == pow(samples as int, depth),
        forall|j: int|
            0 <= j < pow(samples as int, depth) ==> {
                let e = #[trigger] extensions(prefix, depth, samples)[j];
                &&& e.len() == prefix.len() + depth
                &&& e.subrange(0, prefix.len() as int) == prefix
                &&& is_index_tuple(e.skip(prefix.len() as int), samples as nat)
                &&& tuple_value(e.skip(prefix.len() as int), samples as nat) == j
            },
    decreases depth, 1int, 0int,
{
    reveal(pow);
    if depth == 0 {
        let e = extensions(prefix, depth, samples)[0];
        assert(e.subrange(0, prefix.len() as int) =~= prefix);
        assert(e.skip(prefix.len() as int) =~= Seq::<usize>::empty());
    } else {
        let k = (depth - 1) as nat;
        let p = pow(samples as int, k);
        lemma_extensions_from(prefix, depth, samples, 0);
        assert(pow(samples as int, depth) == samples * p);
        assert forall|j: int| 0 <= j < pow(samples as int, depth) implies {
            let e = #[trigger] extensions(prefix, depth, samples)[j];
            &&& e.len() == prefix.len() + depth
            &&& e.subrange(0, prefix.len() as int) == prefix
            &&& is_index_tuple(e.skip(prefix.len() as int), samples as nat)
            &&& tuple_value(e.skip(prefix.len() as int), samples as nat) == j
        } by {
            lemma_pow_positive(samples as int, k);
            lemma_fundamental_div_mod(j, p);
            let q = j / p;
            let r = j % p;
            assert(q < samples) by (nonlinear_arith)
                requires j == p * q + r, 0 <= r < p, j < samples * p, p > 0;
            assert(q >= 0) by (nonlinear_arith)
                requires j == p * q + r, 0 <= r < p, j >= 0, p > 0;
            let pre = prefix.push(q as usize);
            lemma_extensions(pre, k, samples);
            let e = extensions(prefix, depth, samples)[j];
            assert(e == extensions(pre, k, samples)[r]);
            let tail = e.skip(pre.len() as int);
            let t = e.skip(prefix.len() as int);
            assert(e.subrange(0, pre.len() as int) == pre);
            assert(e[prefix.len() as int] == pre[prefix.len() as int]);
            assert(e.subrange(0, prefix.len() as int) =~= prefix);
            assert(t.drop_first() =~= tail);
            assert(t[0] == q);
            assert(t.len() == depth);
            assert(tuple_value(t, samples as nat) == q * p + tuple_value(tail, samples as nat));
            assert forall|d: int| 0 <= d < t.len() implies #[trigger] t[d] < samples by {
                if d > 0 {
                    assert(t[d] == tail[d - 1]);
                }
            }
            assert(q * p == p * q) by (nonlinear_arith);
        }
    }
}

/// Appends to `results` every extension of `current` to `n_joints` indices,
/// each index below `samples`, in lexicographic order; `current` is left as
/// it was found.
fn generate_index_combinations(
    n_joints: usize,
    samples: usize,
    results: &mut Vec<Vec<usize>>,
    current: &mut Vec<usize>,
)
    requires
        old(current)@.len() <= n_joints,
    ensures
        final(current)@ == old(current)@,
        final(results).deep_view() == old(results).deep_view() + extensions(
            old(current)@,
            (n_joints - old(current)@.len()) as nat,
            samples,
        ),
    decreases n_joints - old(current)@.len(),
{
    if current.len() == n_joints {
        let copy = current.clone();
        assert(copy@ =~= current@);
        assert(copy.deep_view() =~= current@);
        results.push(copy);
        assert(results.deep_view().last() == old(current)@);
        assert(results.deep_view() =~= old(results).deep_view() + seq![old(current)@]);
        return;
    }
    let ghost depth = (n_joints - current@.len()) as nat;
    let mut i: usize = 0;
    while i < samples
        invariant
            current@ == old(current)@,
            current@.len() < n_joints,
            depth == n_joints - current@.len(),
            i <= samples,
            results.deep_view() + extensions_from(current@, depth, samples, i as nat)
                == old(results).deep_view() + extensions(current@, depth, samples),
        decreases samples - i,
    {
        let ghost before = results.deep_view();
        current.push(i);
        generate_index_combinations(n_joints, samples, results, current);
        let _ = current.pop();
        assert(current@ =~= old(current)@);
        assert(results.deep_view() + extensions_from(current@, depth, samples, (i + 1) as nat)
            =~= before + extensions_from(current@, depth, samples, i as nat));
        i += 1;
    }
    assert(extensions_from(current@, depth, samples, i as nat) =~= Seq::<Seq<usize>>::empty());
    assert(results.deep_view() =~= results.deep_view() + Seq::<Seq<usize>>::empty());
}

/// All combinations of one sample index per joint, for `n_joints` joints
/// sampled at `samples` positions each: the tuple at position `j` is `j`
/// written with `n_joints` digits in base `samples`.
pub fn index_combinations(n_joints: usize, samples: usize) -> (combos: Vec<Vec<usize>>)
    ensures
        enumerates_sample_grid(combos.deep_view(), n_joints as nat, samples as nat),
        combos.deep_view().len() == pow(samples as int, n_joints as nat),
        forall|j: int| 0 <= j < combos.deep_view().len() ==> (#[trigger] combos.deep_view()[j]).len() == n_joints,
        forall|j: int, d: int|
            0 <= j < combos.deep_view().len() && 0 <= d < n_joints ==> #[trigger] combos.deep_view()[j][d] < samples,
        forall|i: int, j: int|
            #![trigger combos.deep_view()[i], combos.deep_view()[j]]
            0 <= i < j < combos.deep_view().len() ==> combos.deep_view()[i] != combos.deep_view()[j] && exists|d: int|
                0 <= d < n_joints && #[trigger] combos.deep_view()[i][d] < #[trigger] combos.deep_view()[j][d]
                    && forall|e: int| 0 <= e < d ==> combos.deep_view()[i][e] == combos.deep_view()[j][e],
{
    let mut results: Vec<Vec<usize>> = Vec::new();
    let mut current: Vec<usize> = Vec::new();
    generate_index_combinations(n_joints, samples, &mut results, &mut current);
    let ghost all = extensions(Seq::empty(), n_joints as nat, samples);
    assert(results.deep_view() =~= Seq::<Seq<usize>>::empty() + all);
    proof {
        lemma_extensions(Seq::empty(), n_joints as nat, samples);
        assert forall|j: int| 0 <= j < all.len() implies {
            &&& (#[trigger] all[j]).len() == n_joints
            &&& is_index_tuple(all[j], samples as nat)
            &&& tuple_value(all[j], samples as nat) == j
        } by {
            assert(all[j].skip(0) =~= all[j]);
        }
        lemma_sample_grid_lexicographic(all, n_joints as nat, samples as nat);
        assert(results.deep_view() == all);
    }
    results
}

/// The divisor that turns sample index `i` into the fraction `i / divisor`
/// of a joint's range: with two or more samples the first index lands on the
/// range's start and the last on its end; a single sample sits at the start.
pub fn sample_divisor(samples: usize) -> (divisor: usize)
    ensures
        divisor == (if samples >= 2 { samples - 1 } else { 1 }),
        divisor >= 1,
        samples <= divisor + 1,
{
    if samples >= 2 {
        samples - 1
    } else {
        1
    }
}

/// A tuple of `k` valid indices stands for a number in `[0, samples^k)`.
pub proof fn lemma_tuple_value_bounds(t: Seq<usize>, samples: nat)
    requires
        is_index_tuple(t, samples),
    ensures
        0 <= tuple_value(t, samples) < pow(samples as int, t.len()),
    decreases t.len(),
{
    reveal(pow);
    if t.len() > 0 {
        let rest = t.drop_first();
        assert(is_index_tuple(rest, samples)) by {
            assert forall|d: int| 0 <= d < rest.len() implies #[trigger] rest[d] < samples by {
                assert(rest[d] == t[d + 1]);
            }
        }
        lemma_tuple_value_bounds(rest, samples);
        let p = pow(samples as int, rest.len());
        let v = tuple_value(rest, samples);
        assert(t[0] < samples);
        assert(pow(samples as int, t.len()) == samples * p);
        assert(0 <= t[0] * p + v < samples * p) by (nonlinear_arith)
            requires 0 <= t[0] < samples, 0 <= v < p;
    }
}

/// Two tuples of valid indices of the same length that stand for the same
/// number are the same tuple.
pub proof fn lemma_tuple_value_injective(t: Seq<usize>, u: Seq<usize>, samples: nat)
    requires
        t.len() == u.len(),
        is_index_tuple(t, samples),
        is_index_tuple(u, samples),
        tuple_value(t, samples) == tuple_value(u, samples),
    ensures
        t == u,
    decreases t.len(),
{
    if t.len() > 0 {
        let (rt, ru) = (t.drop_first(), u.drop_first());
        assert(is_index_tuple(rt, samples)) by {
            assert forall|d: int| 0 <= d < rt.len() implies #[trigger] rt[d] < samples by {
                assert(rt[d] == t[d + 1]);
            }
        }
        assert(is_index_tuple(ru, samples)) by {
            assert forall|d: int| 0 <= d < ru.len() implies #[trigger] ru[d] < samples by {
                assert(ru[d] == u[d + 1]);
            }
        }
        lemma_tuple_value_bounds(rt, samples);
        lemma_tuple_value_bounds(ru, samples);
        let p = pow(samples as int, rt.len());
        let (vt, vu) = (tuple_value(rt, samples), tuple_value(ru, samples));
        lemma_fundamental_div_mod_converse_div(t[0] * p + vt, p, t[0] as int, vt);
        lemma_fundamental_div_mod_converse_div(u[0] * p + vu, p, u[0] as int, vu);
        lemma_fundamental_div_mod_converse_mod(t[0] * p + vt, p, t[0] as int, vt);
        lemma_fundamental_div_mod_converse_mod(u[0] * p + vu, p, u[0] as int, vu);
        lemma_tuple_value_injective(rt, ru, samples);
        assert(t =~= seq![t[0]] + rt);
        assert(u =~= seq![u[0]] + ru);
    }
}

/// Every choice of one sample index per joint occurs in the grid, at the
/// position that the choice stands for.
pub proof fn lemma_sample_grid_complete(
    combos: Seq<Seq<usize>>,
    n_joints: nat,
    samples: nat,
    choice: Seq<usize>,
)
    requires
        enumerates_sample_grid(combos, n_joints, samples),
        choice.len() == n_joints,
        is_index_tuple(choice, samples),
    ensures
        0 <= tuple_value(choice, samples) < combos.len(),
        combos[tuple_value(choice, samples)] == choice,
        combos.contains(choice),
{
    lemma_tuple_value_bounds(choice, samples);
    let j = tuple_value(choice, samples);
    lemma_tuple_value_injective(combos[j], choice, samples);
}

/// A tuple of valid indices that stands for a smaller number comes first in
/// lexicographic order: at the first entry where the two differ, its entry
/// is the smaller one.
pub proof fn lemma_tuple_value_order(t: Seq<usize>, u: Seq<usize>, samples: nat)
    requires
        t.len() == u.len(),
        is_index_tuple(t, samples),
        is_index_tuple(u, samples),
        tuple_value(t, samples) < tuple_value(u, samples),
    ensures
        exists|d: int|
            0 <= d < t.len() && #[trigger] t[d] < #[trigger] u[d] && forall|e: int| 0 <= e < d ==> t[e] == u[e],
    decreases t.len(),
{
    let (rt, ru) = (t.drop_first(), u.drop_first());
    assert(is_index_tuple(rt, samples)) by {
        assert forall|d: int| 0 <= d < rt.len() implies #[trigger] rt[d] < samples by {
            assert(rt[d] == t[d + 1]);
        }
    }
    assert(is_index_tuple(ru, samples)) by {
        assert forall|d: int| 0 <= d < ru.len() implies #[trigger] ru[d] < samples by {
            assert(ru[d] == u[d + 1]);
        }
    }
    lemma_tuple_value_bounds(rt, samples);
    lemma_tuple_value_bounds(ru, samples);
    let p = pow(samples as int, rt.len());
    let (vt, vu) = (tuple_value(rt, samples), tuple_value(ru, samples));
    let (t0, u0) = (t[0] as int, u[0] as int);
    assert(t0 * p + vt < u0 * p + vu);
    if t0 < u0 {
        assert(t[0] < u[0]);
    } else if t0 == u0 {
        assert(vt < vu);
        lemma_tuple_value_order(rt, ru, samples);
        let d = choose|d: int|
            0 <= d < rt.len() && #[trigger] rt[d] < #[trigger] ru[d] && forall|e: int| 0 <= e < d ==> rt[e] == ru[e];
        assert(t[d + 1] < u[d + 1]);
        assert forall|e: int| 0 <= e < d + 1 implies t[e] == u[e] by {
            if e > 0 {
                assert(rt[e - 1] == ru[e - 1]);
            }
        }
    } else {
        assert(t0 * p + vt >= u0 * p + vu) by (nonlinear_arith)
            requires t0 > u0, 0 <= vt < p, 0 <= vu < p;
    }
}

/// The grid lists the choices in strictly increasing lexicographic order:
/// the first joint varies slowest.
pub proof fn lemma_sample_grid_lexicographic(combos: Seq<Seq<usize>>, n_joints: nat, samples: nat)
    requires
        enumerates_sample_grid(combos, n_joints, samples),
    ensures
        combos.len() == pow(samples as int, n_joints),
        forall|j: int| 0 <= j < combos.len() ==> (#[trigger] combos[j]).len() == n_joints,
        forall|j: int, d: int| 0 <= j < combos.len() && 0 <= d < n_joints ==> #[trigger] combos[j][d] < samples,
        forall|i: int, j: int|
            #![trigger combos[i], combos[j]]
            0 <= i < j < combos.len() ==> combos[i] != combos[j] && exists|d: int|
                0 <= d < n_joints && #[trigger] combos[i][d] < #[trigger] combos[j][d] && forall|e: int|
                    0 <= e < d ==> combos[i][e] == combos[j][e],
{
    assert forall|i: int, j: int|
        #![trigger combos[i], combos[j]]
        0 <= i < j < combos.len() implies combos[i] != combos[j] && exists|d: int|
        0 <= d < n_joints && #[trigger] combos[i][d] < #[trigger] combos[j][d] && forall|e: int|
            0 <= e < d ==> combos[i][e] == combos[j][e] by {
        lemma_tuple_value_order(combos[i], combos[j], samples);
    }
}

/// No choice of sample indices occurs twice in the grid.
pub proof fn lemma_sample_grid_distinct(combos: Seq<Seq<usize>>, n_joints: nat, samples: nat)
    requires
        enumerates_sample_grid(combos, n_joints, samples),
    ensures
        combos.no_duplicates(),
{
    assert forall|i: int, j: int|
        0 <= i < combos.len() && 0 <= j < combos.len() && i != j implies combos[i] != combos[j] by {
        if combos[i] == combos[j] {
            assert(tuple_value(combos[i], samples) == tuple_value(combos[j], samples));
        }
    }
}

} // verus!
