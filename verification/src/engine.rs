//! The generational engine: chromosomes carrying their decoded
//! instruction sequence and fitness, and the loop body that decodes and
//! scores one population, checks for an exact match, and otherwise
//! breeds the next population by selection, crossover and mutation.

use vstd::prelude::*;
use crate::CHROMO_LENGTH;
use crate::POPULATION_SIZE;
use crate::codec::decode;
use crate::codec::decode_spec;
use crate::codec::render_tokens;
use crate::codec::render_expression;
use crate::eval::EXACT_FITNESS;
use crate::eval::TARGET_LIMIT;
use crate::eval::evaluate;
use crate::eval::fitness_spec;
use crate::ops::copy_bits;
use crate::ops::crossover;
use crate::ops::crossover_outcome;
use crate::ops::is_mutant;
use crate::ops::mutate;
use crate::ops::offspring_pair;
use crate::ops::prefix_fitness;
use crate::ops::lemma_prefix_fitness_push;
use crate::ops::roulette;
use crate::ops::selectable;

verus! {

/// One population slot: a bit-string chromosome, the instruction
/// sequence decoded from it, and its fitness against the current target.
pub struct ChromosomeType {
    pub chromosome: Vec<bool>,
    pub parsed_genes: Vec<u32>,
    pub fitness: u64,
}

impl ChromosomeType {
    /// The chromosome holds a full-length bit-string.
    pub open spec fn wf(self) -> bool {
        self.chromosome@.len() == CHROMO_LENGTH
    }

    /// The instruction sequence is the one decoded from the bit-string.
    pub open spec fn decoded(self) -> bool {
        &&& self.wf()
        &&& self.parsed_genes@ == decode_spec(self.chromosome@)
    }

    /// Decoded, with the fitness the scoring rule assigns against the
    /// target.
    pub open spec fn scored(self, target_tenths: int) -> bool {
        &&& self.decoded()
        &&& self.fitness == fitness_spec(self.parsed_genes@, target_tenths)
    }

    /// The expression encoded by this chromosome evaluates exactly to
    /// the target.
    pub open spec fn solves(self, target_tenths: int) -> bool {
        fitness_spec(decode_spec(self.chromosome@), target_tenths) == EXACT_FITNESS
    }

    /// A fresh slot: randomly generated full-length bits when `generate`
    /// holds, else an empty placeholder to be filled by reproduction.
    pub fn new(generate: bool, rng: &mut rand::rngs::StdRng) -> (c: Self)
        ensures
            generate ==> c.wf(),
            !generate ==> c.chromosome@.len() == 0,
            c.parsed_genes@.len() == 0,
            c.fitness == 0,
    {
        let bits: Vec<bool> = if generate {
            crate::codec::generate(rng)
        } else {
            Vec::new()
        };
        ChromosomeType { chromosome: bits, parsed_genes: Vec::new(), fitness: 0 }
    }

    /// Decodes the chromosome's bit-string into its instruction
    /// sequence.
    pub fn parse_genes(&mut self)
        requires
            old(self).wf(),
        ensures
            final(self).decoded(),
            final(self).chromosome@ == old(self).chromosome@,
            final(self).fitness == old(self).fitness,
    {
        self.parsed_genes = decode(&self.chromosome);
    }

    /// Scores the decoded instruction sequence against the target. The
    /// fitness equals the exact-match sentinel exactly when the
    /// expression evaluates to the target.
    pub fn assign_fitness(&mut self, target_tenths: i64)
        requires
            old(self).decoded(),
            -TARGET_LIMIT <= target_tenths <= TARGET_LIMIT,
        ensures
            final(self).scored(target_tenths as int),
            final(self).chromosome@ == old(self).chromosome@,
            final(self).parsed_genes@ == old(self).parsed_genes@,
            final(self).fitness <= EXACT_FITNESS,
            old(self).parsed_genes@.len() > 0 ==> final(self).fitness >= 1,
            final(self).fitness == EXACT_FITNESS <==> old(self).solves(target_tenths as int),
    {
        proof {
            crate::codec::lemma_decode_wf(self.chromosome@);
            crate::codec::lemma_decode_len(self.chromosome@);
        }
        self.fitness = evaluate(&self.parsed_genes, target_tenths);
    }

    /// The decoded expression as printable characters: digits literally,
    /// operators as their arithmetic signs, each token followed by a
    /// space.
    pub fn expression(&self) -> (out: Vec<char>)
        ensures
            out@ == render_tokens(self.parsed_genes@),
    {
        render_expression(&self.parsed_genes)
    }
}

/// Every slot of the population holds a full-length chromosome.
pub open spec fn all_wf(pop: Seq<ChromosomeType>) -> bool {
    forall|i: int| 0 <= i < pop.len() ==> (#[trigger] pop[i]).wf()
}

/// `c` carries the bits of the first individual of the population whose
/// expression evaluates exactly to the target.
pub open spec fn reports_first_solver(
    pop: Seq<ChromosomeType>,
    target_tenths: int,
    c: ChromosomeType,
) -> bool {
    exists|i: int|
        #![auto]
        0 <= i < pop.len() && c.chromosome@ == pop[i].chromosome@ && pop[i].solves(target_tenths)
            && (forall|j: int| 0 <= j < i ==> !(#[trigger] pop[j]).solves(target_tenths))
}

/// The fitness of each individual of a population, in scoring order.
pub open spec fn scored_fits(pop: Seq<ChromosomeType>, target_tenths: int) -> Seq<u64> {
    Seq::new(
        pop.len(),
        |j: int| fitness_spec(decode_spec(pop[j].chromosome@), target_tenths) as u64,
    )
}

/// `a` and `b` were bred from the scored population: two parents picked
/// by roulette selection over its fitness values, recombined by
/// crossover (at some cut, or kept whole), each child then mutated.
pub open spec fn bred_pair(
    pop: Seq<ChromosomeType>,
    target_tenths: int,
    a: ChromosomeType,
    b: ChromosomeType,
) -> bool {
    exists|i1: int, i2: int|
        #![auto]
        0 <= i1 < pop.len() && 0 <= i2 < pop.len() && selectable(
            scored_fits(pop, target_tenths),
            i1,
        ) && selectable(scored_fits(pop, target_tenths), i2) && offspring_pair(
            pop[i1].chromosome@,
            pop[i2].chromosome@,
            a.chromosome@,
            b.chromosome@,
        )
}

/// What one generation ends in: a solving individual, decoded and
/// scored, or the next population to try.
pub enum GenerationOutcome {
    Solved(ChromosomeType),
    Next(Vec<ChromosomeType>),
}

/// A fresh population of `POPULATION_SIZE` random chromosomes.
pub fn seed_population(rng: &mut rand::rngs::StdRng) -> (pop: Vec<ChromosomeType>)
    ensures
        pop@.len() == POPULATION_SIZE,
        all_wf(pop@),
{
    let mut pop: Vec<ChromosomeType> = Vec::new();
    let mut i: usize = 0;
    while i < POPULATION_SIZE
        invariant
            i <= POPULATION_SIZE,
            pop@.len() == i,
            all_wf(pop@),
        decreases POPULATION_SIZE - i,
    {
        pop.push(ChromosomeType::new(true, rng));
        i = i + 1;
    }
    pop
}

/// Runs one full generation over `population`: decode and score every
/// individual in order, and either report the first one whose expression
/// hits the target exactly, or breed a full replacement population by
/// roulette selection, crossover and mutation.
pub fn run_generation(
    population: Vec<ChromosomeType>,
    target_tenths: i64,
    rng: &mut rand::rngs::StdRng,
) -> (out: GenerationOutcome)
    requires
        population@.len() == POPULATION_SIZE,
        all_wf(population@),
        -TARGET_LIMIT <= target_tenths <= TARGET_LIMIT,
    ensures
        match out {
            GenerationOutcome::Solved(c) => {
                &&& c.scored(target_tenths as int)
                &&& c.fitness == EXACT_FITNESS
                &&& reports_first_solver(population@, target_tenths as int, c)
            },
            GenerationOutcome::Next(next) => {
                &&& next@.len() == POPULATION_SIZE
                &&& all_wf(next@)
                &&& forall|j: int|
                    0 <= j < population@.len() ==> !(#[trigger] population@[j]).solves(
                        target_tenths as int,
                    )
                &&& forall|e: int|
                    0 <= e && e % 2 == 0 && e + 1 < next@.len() ==> bred_pair(
                        population@,
                        target_tenths as int,
                        #[trigger] next@[e],
                        next@[e + 1],
                    )
            },
        },
{
    let ghost t = target_tenths as int;
    let mut scored: Vec<ChromosomeType> = Vec::new();
    let mut fits: Vec<u64> = Vec::new();
    let mut total: u64 = 0;
    let mut i: usize = 0;
    while i < POPULATION_SIZE
        invariant
            i <= POPULATION_SIZE,
            population@.len() == POPULATION_SIZE,
            all_wf(population@),
            -TARGET_LIMIT <= target_tenths <= TARGET_LIMIT,
            t == target_tenths as int,
            scored@.len() == i,
            fits@.len() == i,
            forall|j: int|
                0 <= j < i ==> (#[trigger] scored@[j]).scored(t) && scored@[j].chromosome@
                    == population@[j].chromosome@,
            forall|j: int| 0 <= j < i ==> #[trigger] fits@[j] == scored@[j].fitness,
            forall|j: int| 0 <= j < i ==> #[trigger] fits@[j] == scored_fits(population@, t)[j],
            forall|j: int| 0 <= j < i ==> !(#[trigger] population@[j]).solves(t),
            total == prefix_fitness(fits@, i as int),
            total <= i * (EXACT_FITNESS as int),
        decreases POPULATION_SIZE - i,
    {
        let mut c = ChromosomeType {
            chromosome: copy_bits(&population[i].chromosome),
            parsed_genes: Vec::new(),
            fitness: 0,
        };
        c.parse_genes();
        c.assign_fitness(target_tenths);
        if c.fitness == EXACT_FITNESS {
            proof {
                let wi = i as int;
                assert(population@[wi].solves(t));
                assert(c.chromosome@ == population@[wi].chromosome@);
                assert(forall|j: int| 0 <= j < wi ==> !(#[trigger] population@[j]).solves(t));
                assert(reports_first_solver(population@, t, c));
            }
            return GenerationOutcome::Solved(c);
        }
        proof {
            lemma_prefix_fitness_push(fits@, c.fitness, i as int);
        }
        total = total + c.fitness;
        proof {
            assert(c.parsed_genes@ == decode_spec(population@[i as int].chromosome@));
        }
        fits.push(c.fitness);
        scored.push(c);
        proof {
            assert(fits@[i as int] == scored_fits(population@, t)[i as int]);
        }
        i = i + 1;
    }
    proof {
        assert(fits@ =~= scored_fits(population@, t));
    }
    let ghost scored_snap = scored@;
    let mut next: Vec<ChromosomeType> = Vec::new();
    while next.len() < POPULATION_SIZE
        invariant
            next@.len() <= POPULATION_SIZE,
            next@.len() % 2 == 0,
            all_wf(next@),
            population@.len() == POPULATION_SIZE,
            t == target_tenths as int,
            scored@ == scored_snap,
            scored@.len() == POPULATION_SIZE,
            fits@.len() == POPULATION_SIZE,
            fits@ == scored_fits(population@, t),
            forall|j: int| 0 <= j < POPULATION_SIZE ==> (#[trigger] scored@[j]).wf(),
            forall|j: int|
                0 <= j < POPULATION_SIZE ==> (#[trigger] scored@[j]).chromosome@ == population@[
                    j].chromosome@,
            total == prefix_fitness(fits@, POPULATION_SIZE as int),
            forall|e: int|
                0 <= e && e % 2 == 0 && e + 1 < next@.len() ==> bred_pair(
                    population@,
                    t,
                    #[trigger] next@[e],
                    next@[e + 1],
                ),
        decreases POPULATION_SIZE - next.len(),
    {
        let i1 = roulette(total, &fits, rng);
        let i2 = roulette(total, &fits, rng);
        let children = crossover(&scored[i1].chromosome, &scored[i2].chromosome, rng);
        let m1 = mutate(&children.0, rng);
        let m2 = mutate(&children.1, rng);
        let a = ChromosomeType { chromosome: m1, parsed_genes: Vec::new(), fitness: 0 };
        let b = ChromosomeType { chromosome: m2, parsed_genes: Vec::new(), fitness: 0 };
        let ghost ga = a;
        let ghost gb = b;
        let ghost prev = next@;
        proof {
            let p1 = population@[i1 as int].chromosome@;
            let p2 = population@[i2 as int].chromosome@;
            assert(scored@[i1 as int].chromosome@ == p1);
            assert(scored@[i2 as int].chromosome@ == p2);
            assert(is_mutant(children.0@, ga.chromosome@));
            assert(is_mutant(children.1@, gb.chromosome@));
            assert(crossover_outcome(p1, p2, children.0@, children.1@));
            assert(offspring_pair(p1, p2, ga.chromosome@, gb.chromosome@));
            assert(selectable(scored_fits(population@, t), i1 as int));
            assert(selectable(scored_fits(population@, t), i2 as int));
            assert(bred_pair(population@, t, ga, gb));
        }
        next.push(a);
        next.push(b);
        proof {
            assert forall|e: int|
                0 <= e && e % 2 == 0 && e + 1 < next@.len() implies bred_pair(
                population@,
                t,
                #[trigger] next@[e],
                next@[e + 1],
            ) by {
                if e + 1 < prev.len() {
                    assert(next@[e] == prev[e]);
                    assert(next@[e + 1] == prev[e + 1]);
                } else {
                    assert(e == prev.len());
                    assert(next@[e] == ga);
                    assert(next@[e + 1] == gb);
                }
            }
        }
    }
    GenerationOutcome::Next(next)
}

/// Drives the generational loop for at most `max_generations`
/// generations from a fresh random population, and returns the first
/// solving individual with the generation count at which it appeared.
/// Convergence is never owed: a run out of generations returns nothing.
pub fn solve(target_tenths: i64, max_generations: u64, rng: &mut rand::rngs::StdRng) -> (r: Option<
    (u64, ChromosomeType),
>)
    requires
        -TARGET_LIMIT <= target_tenths <= TARGET_LIMIT,
        max_generations >= 1,
    ensures
        r matches Some(gc) ==> {
            &&& 1 <= gc.0 <= max_generations
            &&& gc.1.scored(target_tenths as int)
            &&& gc.1.fitness == EXACT_FITNESS
        },
{
    let mut pop = seed_population(rng);
    let mut generation: u64 = 0;
    while generation < max_generations
        invariant
            pop@.len() == POPULATION_SIZE,
            all_wf(pop@),
            generation <= max_generations,
            -TARGET_LIMIT <= target_tenths <= TARGET_LIMIT,
        decreases max_generations - generation,
    {
        generation = generation + 1;
        match run_generation(pop, target_tenths, rng) {
            GenerationOutcome::Solved(c) => {
                return Some((generation, c));
            },
            GenerationOutcome::Next(p) => {
                pop = p;
            },
        }
    }
    None
}

} // verus!
