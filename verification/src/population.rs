//! Building and rebuilding the population.
//!
//! A population is an ordered list of agents; an agent is an ordered list of
//! coordinates, each a binary64 bit pattern. The initial population is cut
//! from a flat list of coordinates that the caller has drawn, in order, from
//! its dedicated source of randomness; after a generation the population is
//! rebuilt as the survivors followed by the offspring.

use vstd::prelude::*;

verus! {

/// Every agent of the population has exactly `dimensions` coordinates.
pub open spec fn spec_uniform_dims(pop: Seq<Seq<u64>>, dimensions: int) -> bool {
    forall|i: int| 0 <= i < pop.len() ==> (#[trigger] pop[i]).len() == dimensions
}

/// The population cut from a flat list of draws: agent `i` holds the draws
/// `i*dimensions` up to `(i+1)*dimensions`, in order.
pub open spec fn spec_population_of_draws(draws: Seq<u64>, agents: int, dimensions: int) -> Seq<
    Seq<u64>,
> {
    Seq::new(agents as nat, |i: int| draws.subrange(i * dimensions, i * dimensions + dimensions))
}

/// Form the initial population of `agents` agents of `dimensions`
/// coordinates each from a flat list of exactly `agents * dimensions`
/// coordinates, drawn in order by the caller.
pub fn gen_population(agents: usize, dimensions: usize, draws: &Vec<u64>) -> (r: Vec<Vec<u64>>)
    requires
        draws@.len() == agents * dimensions,
    ensures
        r.deep_view() == spec_population_of_draws(draws@, agents as int, dimensions as int),
        r@.len() == agents,
        forall|i: int| 0 <= i < agents ==> r.deep_view()[i].len() == dimensions,
{
    let ghost target = spec_population_of_draws(draws@, agents as int, dimensions as int);
    let total: usize = draws.len();
    let mut r: Vec<Vec<u64>> = Vec::new();
    let mut i: usize = 0;
    proof {
        assert(r.deep_view() =~= target.take(0));
    }
    while i < agents
        invariant
            i <= agents,
            total == draws@.len(),
            draws@.len() == agents * dimensions,
            target == spec_population_of_draws(draws@, agents as int, dimensions as int),
            r.deep_view() == target.take(i as int),
        decreases agents - i,
    {
        proof {
            assert((i as int) * (dimensions as int) + dimensions <= (agents as int) * (
            dimensions as int)) by (nonlinear_arith)
                requires
                    0 <= i < agents,
                    dimensions >= 0,
            ;
        }
        let base: usize = i * dimensions;
        let mut agent: Vec<u64> = Vec::new();
        let mut j: usize = 0;
        while j < dimensions
            invariant
                j <= dimensions,
                base == i * dimensions,
                total == draws@.len(),
                base + dimensions <= total,
                agent@ == draws@.subrange(base as int, base as int + j as int),
            decreases dimensions - j,
        {
            let ghost before = agent@;
            agent.push(draws[base + j]);
            proof {
                assert(agent@ =~= draws@.subrange(base as int, base as int + (j + 1) as int));
            }
            j = j + 1;
        }
        let ghost old_dv = r.deep_view();
        let ghost agent_view = agent@;
        r.push(agent);
        proof {
            assert(r.deep_view() =~~= old_dv.push(agent_view));
            assert(r.deep_view() =~= target.take(i as int + 1));
        }
        i = i + 1;
    }
    proof {
        assert(target.take(agents as int) =~= target);
        assert forall|t: int| 0 <= t < agents implies target[t].len() == dimensions by {
            assert(0 <= t * dimensions && t * dimensions + dimensions <= agents * dimensions)
                by (nonlinear_arith)
                requires
                    0 <= t < agents,
                    dimensions >= 0,
            ;
        }
    }
    r
}

/// The next generation's population: the selected survivors followed by the
/// freshly produced offspring, in order.
pub fn merge_population(survivors: Vec<Vec<u64>>, offspring: Vec<Vec<u64>>) -> (r: Vec<Vec<u64>>)
    ensures
        r.deep_view() == survivors.deep_view() + offspring.deep_view(),
        r@.len() == survivors@.len() + offspring@.len(),
{
    let ghost s_dv = survivors.deep_view();
    let ghost o_dv = offspring.deep_view();
    let mut r = survivors;
    let mut rest = offspring;
    r.append(&mut rest);
    proof {
        assert(r.deep_view() =~= s_dv + o_dv);
    }
    r
}

} // verus!
