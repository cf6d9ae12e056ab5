//! Genetic operators: probabilistic single-point crossover, independent
//! bit-flip mutation, and fitness-proportionate ("roulette wheel")
//! selection.
//!
//! Each operator is split into a deterministic core with an exact
//! contract and a thin caller that feeds it uniform random draws.

use vstd::prelude::*;
use crate::CHROMO_LENGTH;
use crate::CROSSOVER_NUM;
use crate::MUTATE_NUM;
use crate::RATE_DEN;
use crate::rng::rng_below;

verus! {

/// First child of a single-point crossover at `cut`: the second parent's
/// suffix followed by the first parent's prefix.
pub open spec fn cross_first(p1: Seq<bool>, p2: Seq<bool>, cut: int) -> Seq<bool>
    recommends
        0 <= cut <= p1.len(),
        p1.len() == p2.len(),
{
    p2.subrange(cut, p2.len() as int) + p1.subrange(0, cut)
}

/// Second child of a single-point crossover at `cut`: the first parent's
/// prefix followed by the second parent's suffix.
pub open spec fn cross_second(p1: Seq<bool>, p2: Seq<bool>, cut: int) -> Seq<bool>
    recommends
        0 <= cut <= p1.len(),
        p1.len() == p2.len(),
{
    p1.subrange(0, cut) + p2.subrange(cut, p2.len() as int)
}

/// Both children of a crossover keep the parents' full length.
pub proof fn lemma_crossover_length(p1: Seq<bool>, p2: Seq<bool>, cut: int)
    requires
        0 <= cut <= p1.len(),
        p1.len() == p2.len(),
    ensures
        cross_first(p1, p2, cut).len() == p1.len(),
        cross_second(p1, p2, cut).len() == p1.len(),
{
}

/// Copies a bit-string.
pub fn copy_bits(p: &Vec<bool>) -> (c: Vec<bool>)
    ensures
        c@ == p@,
{
    let mut c: Vec<bool> = Vec::new();
    let mut i: usize = 0;
    while i < p.len()
        invariant
            i <= p@.len(),
            c@ == p@.subrange(0, i as int),
        decreases p@.len() - i,
    {
        c.push(p[i]);
        proof {
            assert(c@ =~= p@.subrange(0, i + 1));
        }
        i = i + 1;
    }
    proof {
        assert(c@ =~= p@);
    }
    c
}

/// The deterministic heart of crossover: when `do_cross` holds the two
/// parents are recombined at `cut`, otherwise the children are the two
/// parents unchanged.
pub fn crossover_genomes(p1: &Vec<bool>, p2: &Vec<bool>, do_cross: bool, cut: usize) -> (c: (
    Vec<bool>,
    Vec<bool>,
))
    requires
        p1@.len() == CHROMO_LENGTH,
        p2@.len() == CHROMO_LENGTH,
        cut < CHROMO_LENGTH,
    ensures
        do_cross ==> c.0@ == cross_first(p1@, p2@, cut as int),
        do_cross ==> c.1@ == cross_second(p1@, p2@, cut as int),
        !do_cross ==> c.0@ == p1@ && c.1@ == p2@,
        c.0@.len() == CHROMO_LENGTH,
        c.1@.len() == CHROMO_LENGTH,
{
    if !do_cross {
        return (copy_bits(p1), copy_bits(p2));
    }
    let mut c1: Vec<bool> = Vec::new();
    let mut i: usize = cut;
    while i < CHROMO_LENGTH
        invariant
            cut <= i <= CHROMO_LENGTH,
            p1@.len() == CHROMO_LENGTH,
            p2@.len() == CHROMO_LENGTH,
            c1@ == p2@.subrange(cut as int, i as int),
        decreases CHROMO_LENGTH - i,
    {
        c1.push(p2[i]);
        proof {
            assert(c1@ =~= p2@.subrange(cut as int, i + 1));
        }
        i = i + 1;
    }
    let mut j: usize = 0;
    while j < cut
        invariant
            j <= cut,
            cut < CHROMO_LENGTH,
            p1@.len() == CHROMO_LENGTH,
            p2@.len() == CHROMO_LENGTH,
            c1@ == p2@.subrange(cut as int, CHROMO_LENGTH as int) + p1@.subrange(0, j as int),
        decreases cut - j,
    {
        c1.push(p1[j]);
        proof {
            assert(c1@ =~= p2@.subrange(cut as int, CHROMO_LENGTH as int) + p1@.subrange(
                0,
                j + 1,
            ));
        }
        j = j + 1;
    }
    let mut c2: Vec<bool> = Vec::new();
    let mut k: usize = 0;
    while k < cut
        invariant
            k <= cut,
            cut < CHROMO_LENGTH,
            p1@.len() == CHROMO_LENGTH,
            p2@.len() == CHROMO_LENGTH,
            c2@ == p1@.subrange(0, k as int),
        decreases cut - k,
    {
        c2.push(p1[k]);
        proof {
            assert(c2@ =~= p1@.subrange(0, k + 1));
        }
        k = k + 1;
    }
    let mut l: usize = cut;
    while l < CHROMO_LENGTH
        invariant
            cut <= l <= CHROMO_LENGTH,
            p1@.len() == CHROMO_LENGTH,
            p2@.len() == CHROMO_LENGTH,
            c2@ == p1@.subrange(0, cut as int) + p2@.subrange(cut as int, l as int),
        decreases CHROMO_LENGTH - l,
    {
        c2.push(p2[l]);
        proof {
            assert(c2@ =~= p1@.subrange(0, cut as int) + p2@.subrange(cut as int, l + 1));
        }
        l = l + 1;
    }
    (c1, c2)
}

/// Either the children are the two parents unchanged, or they were
/// recombined at some cut point.
pub open spec fn crossover_outcome(p1: Seq<bool>, p2: Seq<bool>, c1: Seq<bool>, c2: Seq<bool>) -> bool {
    ||| (c1 == p1 && c2 == p2)
    ||| (exists|cut: int|
        0 <= cut < p1.len() && c1 == #[trigger] cross_first(p1, p2, cut) && c2 == cross_second(
            p1,
            p2,
            cut,
        ))
}

/// Crossover as the engine runs it: with probability
/// `CROSSOVER_NUM / RATE_DEN` the parents are recombined at a uniform cut
/// point, otherwise the children are the parents unchanged.
pub fn crossover(p1: &Vec<bool>, p2: &Vec<bool>, rng: &mut rand::rngs::StdRng) -> (c: (
    Vec<bool>,
    Vec<bool>,
))
    requires
        p1@.len() == CHROMO_LENGTH,
        p2@.len() == CHROMO_LENGTH,
    ensures
        c.0@.len() == CHROMO_LENGTH,
        c.1@.len() == CHROMO_LENGTH,
        crossover_outcome(p1@, p2@, c.0@, c.1@),
{
    let draw = rng_below(rng, RATE_DEN);
    if draw < CROSSOVER_NUM {
        let cut = rng_below(rng, CHROMO_LENGTH as u64) as usize;
        let c = crossover_genomes(p1, p2, true, cut);
        proof {
            assert(c.0@ == cross_first(p1@, p2@, cut as int) && c.1@ == cross_second(
                p1@,
                p2@,
                cut as int,
            ));
        }
        c
    } else {
        crossover_genomes(p1, p2, false, 0)
    }
}

/// The bit-string after mutation: every bit whose flip flag is set is
/// inverted, every other bit is kept.
pub open spec fn mutated(bits: Seq<bool>, flips: Seq<bool>) -> Seq<bool>
    recommends
        flips.len() == bits.len(),
{
    Seq::new(
        bits.len(),
        |i: int|
            if flips[i] {
                !bits[i]
            } else {
                bits[i]
            },
    )
}

/// When no flip flag is set, mutation returns the input bit-string
/// unchanged, bit for bit.
pub proof fn lemma_mutation_identity(bits: Seq<bool>, flips: Seq<bool>)
    requires
        flips.len() == bits.len(),
        forall|i: int| 0 <= i < flips.len() ==> !flips[i],
    ensures
        mutated(bits, flips) == bits,
{
    assert(mutated(bits, flips) =~= bits);
}

/// The deterministic heart of mutation: applies a given flip flag to
/// every bit.
pub fn mutate_with(bits: &Vec<bool>, flips: &Vec<bool>) -> (out: Vec<bool>)
    requires
        flips@.len() == bits@.len(),
    ensures
        out@ == mutated(bits@, flips@),
{
    let mut out: Vec<bool> = Vec::new();
    let mut i: usize = 0;
    while i < bits.len()
        invariant
            i <= bits@.len(),
            flips@.len() == bits@.len(),
            out@ == mutated(bits@, flips@).subrange(0, i as int),
        decreases bits@.len() - i,
    {
        if flips[i] {
            out.push(!bits[i]);
        } else {
            out.push(bits[i]);
        }
        proof {
            assert(out@ =~= mutated(bits@, flips@).subrange(0, i + 1));
        }
        i = i + 1;
    }
    proof {
        assert(out@ =~= mutated(bits@, flips@));
    }
    out
}

/// Mutation as the engine runs it: every bit is flipped independently
/// with probability `MUTATE_NUM / RATE_DEN`.
pub fn mutate(bits: &Vec<bool>, rng: &mut rand::rngs::StdRng) -> (out: Vec<bool>)
    requires
        bits@.len() == CHROMO_LENGTH,
    ensures
        out@.len() == CHROMO_LENGTH,
        exists|flips: Seq<bool>| flips.len() == bits@.len() && out@ == #[trigger] mutated(
            bits@,
            flips,
        ),
{
    let mut flips: Vec<bool> = Vec::new();
    let mut i: usize = 0;
    while i < CHROMO_LENGTH
        invariant
            i <= CHROMO_LENGTH,
            flips@.len() == i,
        decreases CHROMO_LENGTH - i,
    {
        let draw = rng_below(rng, RATE_DEN);
        flips.push(draw < MUTATE_NUM);
        i = i + 1;
    }
    let out = mutate_with(bits, &flips);
    proof {
        assert(out@ == mutated(bits@, flips@));
    }
    out
}

/// Running sum of the first `k` fitness values.
pub open spec fn prefix_fitness(fits: Seq<u64>, k: int) -> int
    decreases k,
{
    if k <= 0 {
        0
    } else {
        prefix_fitness(fits, k - 1) + fits[k - 1]
    }
}

/// The index the roulette scan settles on, starting at slot `i` with
/// running sum `acc`: the first slot whose inclusion pushes the running
/// sum past the drawn slice, or the last slot as the fallback.
pub open spec fn roulette_from(fits: Seq<u64>, slice: int, i: int, acc: int) -> int
    decreases fits.len() - i,
{
    if i < 0 || i >= fits.len() {
        fits.len() - 1
    } else if acc + fits[i] > slice {
        i
    } else {
        roulette_from(fits, slice, i + 1, acc + fits[i])
    }
}

/// The slot fitness-proportionate selection picks for a drawn slice.
pub open spec fn roulette_spec(fits: Seq<u64>, slice: int) -> int {
    roulette_from(fits, slice, 0, 0)
}

proof fn lemma_roulette_from_range(fits: Seq<u64>, slice: int, i: int, acc: int)
    requires
        fits.len() > 0,
        0 <= i,
    ensures
        0 <= roulette_from(fits, slice, i, acc) < fits.len(),
    decreases fits.len() - i,
{
    if i < fits.len() && !(acc + fits[i] > slice) {
        lemma_roulette_from_range(fits, slice, i + 1, acc + fits[i]);
    }
}

/// The selected slot is always a valid index of the population.
pub proof fn lemma_roulette_range(fits: Seq<u64>, slice: int)
    requires
        fits.len() > 0,
    ensures
        0 <= roulette_spec(fits, slice) < fits.len(),
{
    lemma_roulette_from_range(fits, slice, 0, 0);
}

proof fn lemma_roulette_from_degenerate(fits: Seq<u64>, slice: int, k: int, i: int)
    requires
        0 <= i <= k < fits.len(),
        forall|j: int| 0 <= j < fits.len() && j != k ==> fits[j] == 0,
        0 <= slice < fits[k],
    ensures
        roulette_from(fits, slice, i, 0) == k,
    decreases k - i,
{
    if i < k {
        assert(fits[i] == 0);
        lemma_roulette_from_degenerate(fits, slice, k, i + 1);
    }
}

/// When one individual holds the whole of the total fitness, selection
/// returns that individual whatever the random draw in `[0, total)` was.
pub proof fn lemma_selection_degenerate(fits: Seq<u64>, slice: int, k: int)
    requires
        0 <= k < fits.len(),
        forall|j: int| 0 <= j < fits.len() && j != k ==> fits[j] == 0,
        0 <= slice < fits[k],
    ensures
        roulette_spec(fits, slice) == k,
{
    lemma_roulette_from_degenerate(fits, slice, k, 0);
}

/// The roulette scan over concrete fitness values: accumulates the
/// running sum in population order and returns the first slot that
/// pushes it past `slice`, or the last slot as the fallback the
/// degenerate case calls for.
pub fn select_index(fits: &Vec<u64>, slice: u64) -> (idx: usize)
    requires
        fits@.len() > 0,
        prefix_fitness(fits@, fits@.len() as int) <= u64::MAX,
    ensures
        idx < fits@.len(),
        idx == roulette_spec(fits@, slice as int),
{
    proof {
        lemma_roulette_range(fits@, slice as int);
    }
    let mut acc: u64 = 0;
    let mut i: usize = 0;
    while i < fits.len()
        invariant
            0 <= i <= fits@.len(),
            fits@.len() > 0,
            acc == prefix_fitness(fits@, i as int),
            prefix_fitness(fits@, fits@.len() as int) <= u64::MAX,
            roulette_spec(fits@, slice as int) == roulette_from(
                fits@,
                slice as int,
                i as int,
                acc as int,
            ),
        decreases fits@.len() - i,
    {
        proof {
            lemma_prefix_fitness_bound(fits@, i as int);
        }
        acc = acc + fits[i];
        if acc > slice {
            return i;
        }
        i = i + 1;
    }
    fits.len() - 1
}

proof fn lemma_prefix_fitness_bound(fits: Seq<u64>, i: int)
    requires
        0 <= i < fits.len(),
    ensures
        prefix_fitness(fits, i) + fits[i] == prefix_fitness(fits, i + 1),
        prefix_fitness(fits, i + 1) <= prefix_fitness(fits, fits.len() as int),
    decreases fits.len() - i,
{
    if i + 1 < fits.len() {
        lemma_prefix_fitness_bound(fits, i + 1);
        lemma_prefix_fitness_nonneg(fits, i + 1);
    }
}

/// Appending a fitness value does not change the running sums over the
/// values already there.
pub proof fn lemma_prefix_fitness_push(fits: Seq<u64>, x: u64, k: int)
    requires
        0 <= k <= fits.len(),
    ensures
        prefix_fitness(fits.push(x), k) == prefix_fitness(fits, k),
    decreases k,
{
    if k > 0 {
        lemma_prefix_fitness_push(fits, x, k - 1);
        assert(fits.push(x)[k - 1] == fits[k - 1]);
    }
}

proof fn lemma_prefix_fitness_nonneg(fits: Seq<u64>, i: int)
    ensures
        prefix_fitness(fits, i) >= 0,
    decreases i,
{
    if i > 0 {
        lemma_prefix_fitness_nonneg(fits, i - 1);
    }
}

/// A slot the roulette wheel can land on: one picked by some slice in
/// `[0, total)` of the running-sum scan, or the fallback last slot when
/// the total fitness is zero and there is nothing to draw from.
pub open spec fn selectable(fits: Seq<u64>, idx: int) -> bool {
    let total = prefix_fitness(fits, fits.len() as int);
    if total > 0 {
        exists|slice: int| 0 <= slice < total && idx == #[trigger] roulette_spec(fits, slice)
    } else {
        idx == fits.len() - 1
    }
}

/// Roulette selection as the engine runs it: draws a uniform slice in
/// `[0, total_fitness)` and scans for the first slot whose running sum
/// exceeds it; with a total of zero there is nothing to draw from and
/// the last slot is returned.
pub fn roulette(total_fitness: u64, fits: &Vec<u64>, rng: &mut rand::rngs::StdRng) -> (idx: usize)
    requires
        fits@.len() > 0,
        total_fitness == prefix_fitness(fits@, fits@.len() as int),
    ensures
        idx < fits@.len(),
        selectable(fits@, idx as int),
{
    if total_fitness == 0 {
        return fits.len() - 1;
    }
    let slice = rng_below(rng, total_fitness);
    let idx = select_index(fits, slice);
    proof {
        assert(idx == roulette_spec(fits@, slice as int));
    }
    idx
}

/// `out` is a mutation of `src`: some flip flags turn the one into the
/// other.
pub open spec fn is_mutant(src: Seq<bool>, out: Seq<bool>) -> bool {
    exists|flips: Seq<bool>| flips.len() == src.len() && out == #[trigger] mutated(src, flips)
}

/// `ca` and `cb` are what crossover followed by mutation can make of the
/// parents `p1` and `p2`: the crossover pair (recombined at some cut, or
/// the parents unchanged), each then mutated.
pub open spec fn offspring_pair(p1: Seq<bool>, p2: Seq<bool>, ca: Seq<bool>, cb: Seq<bool>) -> bool {
    exists|c1: Seq<bool>, c2: Seq<bool>|
        #[trigger] crossover_outcome(p1, p2, c1, c2) && is_mutant(c1, ca) && is_mutant(c2, cb)
}

} // verus!
