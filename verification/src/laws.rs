//! The generational invariants of the search, proved once and for all over
//! the specifications that the executable functions are pinned to.

use vstd::prelude::*;
use crate::bits::{spec_le_bits, spec_lt_bits};
use crate::novelty::{
    spec_archived_agents,
    spec_select,
    spec_zip_scored,
    EvalPass,
};
use crate::population::spec_uniform_dims;
use crate::replenish::ReplenishPass;
use crate::sorting::{
    lemma_sort_asc_props,
    spec_sort_asc,
    spec_sorted_asc,
    lemma_sort_desc_props,
    spec_sort_desc,
    spec_sorted_desc,
};

verus! {

/// A full generation keeps the population size: when the scored population
/// holds `agents` members, `alive_agents` of them survive and the
/// reproduction step owes `agents - alive_agents` children, the merged
/// next generation holds exactly `agents` members again.
pub proof fn lemma_merged_population_size(
    scored: Seq<(Seq<u64>, u64)>,
    alive_agents: int,
    offspring: Seq<Seq<u64>>,
    agents: int,
)
    requires
        scored.len() == agents,
        0 <= alive_agents <= agents,
        offspring.len() == agents - alive_agents,
    ensures
        (spec_select(scored, alive_agents) + offspring).len() == agents,
{
}

/// A full generation keeps the dimensionality: when every agent of the
/// population has `dimensions` coordinates and so does every child, then
/// so does every member of the merged next generation — scoring, sorting
/// and selection only rearrange and discard agents, never reshape them.
pub proof fn lemma_dimensions_invariant(
    pop: Seq<Seq<u64>>,
    scores: Seq<u64>,
    alive_agents: int,
    offspring: Seq<Seq<u64>>,
    dimensions: int,
)
    requires
        spec_uniform_dims(pop, dimensions),
        scores.len() == pop.len(),
        0 <= alive_agents,
        spec_uniform_dims(offspring, dimensions),
    ensures
        spec_uniform_dims(
            spec_select(spec_sort_desc(spec_zip_scored(pop, scores)), alive_agents) + offspring,
            dimensions,
        ),
{
    broadcast use vstd::seq_lib::group_to_multiset_ensures;

    let zipped = spec_zip_scored(pop, scores);
    let sorted = spec_sort_desc(zipped);
    lemma_sort_desc_props(zipped);
    let sel = spec_select(sorted, alive_agents);
    let merged = sel + offspring;
    assert forall|i: int| 0 <= i < merged.len() implies merged[i].len() == dimensions by {
        if i < sel.len() {
            assert(sorted.contains(sorted[i]));
            assert(zipped.to_multiset().count(sorted[i]) > 0);
            assert(zipped.contains(sorted[i]));
            let j = choose|j: int| 0 <= j < zipped.len() && zipped[j] == sorted[i];
            assert(zipped[j].0 == pop[j]);
            assert(merged[i] == sorted[i].0);
        } else {
            assert(merged[i] == offspring[i - sel.len()]);
        }
    }
}

/// The archive never shrinks within a pass: as scores are recorded, what
/// was archived stays archived, in place — the archived agents of a score
/// prefix are a prefix of the archived agents of the whole.
pub proof fn lemma_archive_monotone(
    pop: Seq<Seq<u64>>,
    threshold: u64,
    earlier: Seq<u64>,
    later: Seq<u64>,
)
    requires
        earlier.is_prefix_of(later),
    ensures
        spec_archived_agents(pop, threshold, earlier).is_prefix_of(
            spec_archived_agents(pop, threshold, later),
        ),
    decreases later.len(),
{
    if earlier.len() == later.len() {
        assert(earlier =~= later);
    } else {
        assert(earlier.is_prefix_of(later.drop_last()));
        lemma_archive_monotone(pop, threshold, earlier, later.drop_last());
        let a = spec_archived_agents(pop, threshold, earlier);
        let b = spec_archived_agents(pop, threshold, later.drop_last());
        let c = spec_archived_agents(pop, threshold, later);
        assert(a =~= b.take(a.len() as int));
        if spec_lt_bits(threshold, later.last()) {
            assert(b =~= c.take(b.len() as int));
        } else {
            assert(b == c);
        }
        assert(a =~= c.take(a.len() as int));
    }
}

/// Every entry the pass adds to the archive is a value-copy of an agent of
/// the generation being evaluated, one whose score strictly exceeded the
/// threshold.
pub proof fn lemma_archive_entries_from_population(
    pop: Seq<Seq<u64>>,
    threshold: u64,
    scores: Seq<u64>,
    m: int,
)
    requires
        scores.len() <= pop.len(),
        0 <= m < spec_archived_agents(pop, threshold, scores).len(),
    ensures
        exists|j: int|
            0 <= j < scores.len() && spec_archived_agents(pop, threshold, scores)[m] == pop[j]
                && spec_lt_bits(threshold, #[trigger] scores[j]),
    decreases scores.len(),
{
    let arch = spec_archived_agents(pop, threshold, scores);
    let prev = spec_archived_agents(pop, threshold, scores.drop_last());
    if m < prev.len() {
        lemma_archive_entries_from_population(pop, threshold, scores.drop_last(), m);
        let j = choose|j: int|
            0 <= j < scores.drop_last().len() && prev[m] == pop[j] && spec_lt_bits(
                threshold,
                #[trigger] scores.drop_last()[j],
            );
        assert(scores[j] == scores.drop_last()[j]);
        assert(arch[m] == prev[m]);
    } else {
        assert(spec_lt_bits(threshold, scores.last()));
        assert(arch[m] == pop[scores.len() - 1]);
        assert(spec_lt_bits(threshold, scores[scores.len() - 1]));
    }
}

/// What `request` hands out really is the `k` nearest neighbourhood: it
/// holds `min(k, n)` of the agent's `n` judged distances, in ascending
/// order, and none of the distances it withholds is smaller than any it
/// hands out.
pub proof fn lemma_request_is_nearest(p: &EvalPass)
    requires
        p.wf(),
        p.in_progress(),
    ensures
        p.current_request().len() == (if p.k as int <= p.current_dists().len() {
            p.k as int
        } else {
            p.current_dists().len() as int
        }),
        spec_sorted_asc(p.current_request()),
        spec_sort_asc(p.current_dists()).to_multiset() == p.current_dists().to_multiset(),
        forall|i: int, j: int|
            0 <= i < p.current_request().len() && p.current_request().len() <= j < p.current_dists().len()
                ==> spec_le_bits(
                #[trigger] p.current_request()[i],
                #[trigger] spec_sort_asc(p.current_dists())[j],
            ),
{
    let ds = p.current_dists();
    lemma_sort_asc_props(ds);
    let sorted = spec_sort_asc(ds);
    let req = p.current_request();
    assert forall|i: int, j: int|
        0 <= i < req.len() && req.len() <= j < ds.len() implies spec_le_bits(
        #[trigger] req[i],
        #[trigger] sorted[j],
    ) by {
        assert(req[i] == sorted[i]);
    }
}

/// What evaluation hands to selection is sorted: the scored population that
/// closes a pass is in non-increasing score order.
pub proof fn lemma_evaluation_output_sorted(pop: Seq<Seq<u64>>, scores: Seq<u64>)
    ensures
        spec_sorted_desc(spec_sort_desc(spec_zip_scored(pop, scores))),
{
    lemma_sort_desc_props(spec_zip_scored(pop, scores));
}

/// Selection is a strict truncation of the sorted scored population: the
/// survivors are its first entries in order, so they are themselves in
/// non-increasing score order, and their scores are a prefix of the full
/// sorted score sequence.
pub proof fn lemma_select_is_sorted_prefix(scored: Seq<(Seq<u64>, u64)>, alive_agents: int)
    requires
        spec_sorted_desc(scored),
        0 <= alive_agents,
    ensures
        spec_select(scored, alive_agents).len() == (if alive_agents <= scored.len() {
            alive_agents
        } else {
            scored.len() as int
        }),
        forall|i: int|
            0 <= i < spec_select(scored, alive_agents).len() ==> spec_select(
                scored,
                alive_agents,
            )[i] == (#[trigger] scored[i]).0,
        forall|i: int, j: int|
            0 <= i < j < spec_select(scored, alive_agents).len() ==> spec_le_bits(
                scored[j].1,
                scored[i].1,
            ),
{
}

/// A completed reproduction pass produced exactly `offspring_count`
/// children, one parent pair was drawn for each, and every drawn parent
/// index lies in `0..alive_agents`.
pub proof fn lemma_replenish_complete(p: &ReplenishPass)
    requires
        p.wf(),
        p.complete(),
    ensures
        p.children@.len() == p.offspring_count,
        p.pairs@.len() == p.offspring_count,
        forall|c: int|
            0 <= c < p.pairs@.len() ==> (#[trigger] p.pairs@[c]).0 < p.alive_agents
                && p.pairs@[c].1 < p.alive_agents,
        forall|c: int|
            0 <= c < p.children@.len() ==> (#[trigger] p.children.deep_view()[c]).len()
                == p.dimensions as int,
{
}

/// The search keeps no hidden state: an evaluation pass is a function of
/// its named inputs, so two passes whose populations, archives, distance
/// tables, parameters and recorded scores agree make the same request of
/// the caller and will close with the same scored population. Every other
/// step is pinned by its contract to a function of its inputs as well, so
/// two runs agree bit for bit as long as the caller answers them with the
/// same distances, means and draws.
pub proof fn lemma_evaluation_deterministic(p1: &EvalPass, p2: &EvalPass)
    requires
        p1.wf(),
        p2.wf(),
        p1.population.deep_view() == p2.population.deep_view(),
        p1.archive.deep_view() == p2.archive.deep_view(),
        p1.base_len == p2.base_len,
        p1.dist_pop.deep_view() == p2.dist_pop.deep_view(),
        p1.dist_arch.deep_view() == p2.dist_arch.deep_view(),
        p1.k == p2.k,
        p1.threshold == p2.threshold,
        p1.scores@ == p2.scores@,
    ensures
        p1.in_progress() ==> p1.current_request() == p2.current_request(),
        spec_sort_desc(spec_zip_scored(p1.population.deep_view(), p1.scores@)) == spec_sort_desc(
            spec_zip_scored(p2.population.deep_view(), p2.scores@),
        ),
{
}

} // verus!
