//! The novelty evaluation pass.
//!
//! Each generation, every agent is scored by how sparse its neighbourhood
//! is: the mean distance to its `k` nearest neighbours among the archive and
//! the other members of the population. Agents are scored in population
//! order, and an agent whose score strictly exceeds the threshold is
//! appended to the archive at once, before the next agent is scored, so a
//! score can be influenced by archive entries added earlier in the same
//! pass.
//!
//! The pass works on two distance tables computed by the caller up front:
//! `dist_pop[i][j]`, the distance from agent `i` to agent `j`, and
//! `dist_arch[i][m]`, the distance from agent `i` to the archive entry `m`
//! present when the pass began. Entries archived during the pass are copies
//! of population agents, so their distances are already rows of
//! `dist_pop`. The one numeric step the pass cannot take itself — the mean
//! of the nearest distances — is requested from the caller one agent at a
//! time: `request` hands out the nearest distances of the agent under
//! evaluation, and `supply_mean` hands their mean back.

use vstd::prelude::*;
use crate::bits::{spec_nan_bits, spec_lt_bits, nan_bits, lt_bits};
use crate::scored::ScoredAgent;
use crate::sorting::{spec_sort_asc, spec_sort_desc, sort_bits_asc, sort_scored_desc};

verus! {

/// No entry of the sequence is a NaN pattern.
pub open spec fn spec_no_nan_seq(s: Seq<u64>) -> bool {
    forall|i: int| 0 <= i < s.len() ==> !spec_nan_bits(s[i])
}

/// No entry of any row is a NaN pattern.
pub open spec fn spec_no_nan_mat(s: Seq<Seq<u64>>) -> bool {
    forall|i: int| 0 <= i < s.len() ==> spec_no_nan_seq(s[i])
}

/// Whether the rows are free of NaN patterns. Distance comparisons are
/// not numerically meaningful on NaN, so input holding one is rejected up
/// front.
pub fn no_nan_mat(v: &Vec<Vec<u64>>) -> (r: bool)
    ensures
        r == spec_no_nan_mat(v.deep_view()),
{
    let mut i: usize = 0;
    while i < v.len()
        invariant
            i <= v@.len(),
            forall|t: int| 0 <= t < i ==> spec_no_nan_seq(v.deep_view()[t]),
        decreases v@.len() - i,
    {
        let row = &v[i];
        let mut j: usize = 0;
        while j < row.len()
            invariant
                j <= row@.len(),
                row@ == v@[i as int]@,
                i < v@.len(),
                forall|t: int| 0 <= t < j ==> !spec_nan_bits(row@[t]),
            decreases row@.len() - j,
        {
            if nan_bits(row[j]) {
                proof {
                    assert(v.deep_view()[i as int][j as int] == row@[j as int]);
                }
                return false;
            }
            j = j + 1;
        }
        proof {
            assert(v.deep_view()[i as int] =~= row@);
        }
        i = i + 1;
    }
    true
}

/// Whether every row has exactly the given length.
pub fn rows_have_len(v: &Vec<Vec<u64>>, d: usize) -> (r: bool)
    ensures
        r == (forall|i: int| 0 <= i < v@.len() ==> v.deep_view()[i].len() == d),
{
    let mut i: usize = 0;
    while i < v.len()
        invariant
            i <= v@.len(),
            forall|t: int| 0 <= t < i ==> v.deep_view()[t].len() == d,
        decreases v@.len() - i,
    {
        if v[i].len() != d {
            proof {
                assert(v.deep_view()[i as int].len() == v@[i as int]@.len());
            }
            return false;
        }
        i = i + 1;
    }
    true
}

/// The distances, taken from the row of distances of the agent under
/// evaluation, to the agents archived during the pass so far: one entry for
/// each already scored agent `j` whose score strictly exceeded the
/// threshold, in order of `j`.
pub open spec fn spec_pass_dists(row: Seq<u64>, threshold: u64, scores: Seq<u64>) -> Seq<u64>
    decreases scores.len(),
{
    if scores.len() == 0 {
        Seq::empty()
    } else if spec_lt_bits(threshold, scores.last()) {
        spec_pass_dists(row, threshold, scores.drop_last()) + seq![row[scores.len() - 1]]
    } else {
        spec_pass_dists(row, threshold, scores.drop_last())
    }
}

/// The agents archived during the pass so far: each already scored agent
/// whose score strictly exceeded the threshold, in order of `j`.
pub open spec fn spec_archived_agents(
    pop: Seq<Seq<u64>>,
    threshold: u64,
    scores: Seq<u64>,
) -> Seq<Seq<u64>>
    decreases scores.len(),
{
    if scores.len() == 0 {
        Seq::empty()
    } else if spec_lt_bits(threshold, scores.last()) {
        spec_archived_agents(pop, threshold, scores.drop_last()) + seq![pop[scores.len() - 1]]
    } else {
        spec_archived_agents(pop, threshold, scores.drop_last())
    }
}

/// The complete list of distances judged for the agent under evaluation
/// (the one with index `scores.len()`): first the distances to the archive
/// as it stood when the pass began, then to the entries archived during the
/// pass so far, then to every other member of the population, self
/// excluded by index.
pub open spec fn spec_dist_list(
    row: Seq<u64>,
    arch_row: Seq<u64>,
    threshold: u64,
    scores: Seq<u64>,
) -> Seq<u64> {
    let i = scores.len() as int;
    arch_row + spec_pass_dists(row, threshold, scores) + row.take(i) + row.skip(i + 1)
}

/// The distances recorded for the agents archived during the pass and the
/// archived agents themselves are flagged alike, so the two lists are
/// equally long.
proof fn lemma_pass_dists_len(row: Seq<u64>, pop: Seq<Seq<u64>>, threshold: u64, scores: Seq<u64>)
    ensures
        spec_pass_dists(row, threshold, scores).len() == spec_archived_agents(
            pop,
            threshold,
            scores,
        ).len(),
    decreases scores.len(),
{
    if scores.len() > 0 {
        lemma_pass_dists_len(row, pop, threshold, scores.drop_last());
    }
}

/// The population zipped with its scores, in population order.
pub open spec fn spec_zip_scored(pop: Seq<Seq<u64>>, scores: Seq<u64>) -> Seq<(Seq<u64>, u64)> {
    Seq::new(pop.len(), |i: int| (pop[i], scores[i]))
}

/// What `EvalPass::new` demands of its inputs: the two distance tables have
/// one row per agent, one column per agent respectively per initial archive
/// entry, and no NaN pattern occurs anywhere.
pub open spec fn spec_eval_inputs_ok(
    pop: Seq<Seq<u64>>,
    arch: Seq<Seq<u64>>,
    dist_pop: Seq<Seq<u64>>,
    dist_arch: Seq<Seq<u64>>,
    threshold: u64,
) -> bool {
    &&& dist_pop.len() == pop.len()
    &&& forall|i: int| 0 <= i < dist_pop.len() ==> dist_pop[i].len() == pop.len()
    &&& dist_arch.len() == pop.len()
    &&& forall|i: int| 0 <= i < dist_arch.len() ==> dist_arch[i].len() == arch.len()
    &&& !spec_nan_bits(threshold)
    &&& spec_no_nan_mat(pop)
    &&& spec_no_nan_mat(arch)
    &&& spec_no_nan_mat(dist_pop)
    &&& spec_no_nan_mat(dist_arch)
}

/// One evaluation pass over the population, agent by agent in population
/// order. The caller drives it: `request` hands out the current agent's
/// nearest distances, `supply_mean` (or `score_isolated`, when there is no
/// neighbour at all) records the score and archives the agent if it
/// qualifies, and `finish` closes the pass, handing back the scored
/// population sorted by score descending and the grown archive.
pub struct EvalPass {
    /// The population under evaluation; never changed by the pass.
    pub population: Vec<Vec<u64>>,
    /// The archive: the entries present at the start of the pass, followed
    /// by the agents archived during the pass, in order of evaluation.
    pub archive: Vec<Vec<u64>>,
    /// How many entries `archive` held when the pass began.
    pub base_len: usize,
    /// `dist_pop[i][j]`: the distance from agent `i` to agent `j`.
    pub dist_pop: Vec<Vec<u64>>,
    /// `dist_arch[i][m]`: the distance from agent `i` to the `m`-th entry
    /// of the archive as it stood when the pass began.
    pub dist_arch: Vec<Vec<u64>>,
    /// How many nearest neighbours a score averages over.
    pub k: usize,
    /// Scores strictly above this are archived.
    pub threshold: u64,
    /// The scores recorded so far; agent `scores.len()` is next.
    pub scores: Vec<u64>,
}

impl EvalPass {
    /// The number of agents under evaluation.
    pub open spec fn agent_count(&self) -> int {
        self.population@.len() as int
    }

    /// How many agents have been scored so far.
    pub open spec fn processed(&self) -> int {
        self.scores@.len() as int
    }

    /// Whether an agent still awaits its score.
    pub open spec fn in_progress(&self) -> bool {
        self.processed() < self.agent_count()
    }

    /// The full distance list of the agent under evaluation.
    pub open spec fn current_dists(&self) -> Seq<u64> {
        spec_dist_list(
            self.dist_pop.deep_view()[self.processed()],
            self.dist_arch.deep_view()[self.processed()],
            self.threshold,
            self.scores@,
        )
    }

    /// What `request` hands out for the agent under evaluation: its
    /// distance list, sorted ascending, cut to the `min(k, length)`
    /// nearest.
    pub open spec fn current_request(&self) -> Seq<u64> {
        let ds = self.current_dists();
        let kk = if self.k as int <= ds.len() {
            self.k as int
        } else {
            ds.len() as int
        };
        spec_sort_asc(ds).take(kk)
    }

    /// Internal consistency: table shapes match the population, the
    /// archive is its initial part followed by exactly the agents whose
    /// scores exceeded the threshold, and no NaN pattern occurs anywhere.
    pub open spec fn wf(&self) -> bool {
        &&& self.dist_pop@.len() == self.agent_count()
        &&& forall|i: int|
            0 <= i < self.agent_count() ==> self.dist_pop.deep_view()[i].len()
                == self.agent_count()
        &&& self.dist_arch@.len() == self.agent_count()
        &&& forall|i: int|
            0 <= i < self.agent_count() ==> self.dist_arch.deep_view()[i].len()
                == self.base_len as int
        &&& self.processed() <= self.agent_count()
        &&& self.archive@.len() == self.base_len as int + spec_archived_agents(
            self.population.deep_view(),
            self.threshold,
            self.scores@,
        ).len()
        &&& self.archive.deep_view().skip(self.base_len as int) == spec_archived_agents(
            self.population.deep_view(),
            self.threshold,
            self.scores@,
        )
        &&& !spec_nan_bits(self.threshold)
        &&& spec_no_nan_mat(self.population.deep_view())
        &&& spec_no_nan_mat(self.archive.deep_view())
        &&& spec_no_nan_mat(self.dist_pop.deep_view())
        &&& spec_no_nan_mat(self.dist_arch.deep_view())
        &&& spec_no_nan_seq(self.scores@)
    }

    /// Open a pass over `population` against `archive`, with the two
    /// distance tables supplied by the caller. Rejects tables whose shape
    /// does not match, and any input holding a NaN pattern, by returning
    /// `None`.
    pub fn new(
        population: Vec<Vec<u64>>,
        archive: Vec<Vec<u64>>,
        dist_pop: Vec<Vec<u64>>,
        dist_arch: Vec<Vec<u64>>,
        k: usize,
        threshold: u64,
    ) -> (r: Option<EvalPass>)
        ensures
            r is Some <==> spec_eval_inputs_ok(
                population.deep_view(),
                archive.deep_view(),
                dist_pop.deep_view(),
                dist_arch.deep_view(),
                threshold,
            ),
            r matches Some(p) ==> {
                &&& p.population == population
                &&& p.archive == archive
                &&& p.base_len == archive@.len()
                &&& p.dist_pop == dist_pop
                &&& p.dist_arch == dist_arch
                &&& p.k == k
                &&& p.threshold == threshold
                &&& p.scores@ == Seq::<u64>::empty()
                &&& p.wf()
            },
    {
        let n = population.len();
        let ok = dist_pop.len() == n && rows_have_len(&dist_pop, n) && dist_arch.len() == n
            && rows_have_len(&dist_arch, archive.len()) && !nan_bits(threshold) && no_nan_mat(
            &population,
        ) && no_nan_mat(&archive) && no_nan_mat(&dist_pop) && no_nan_mat(&dist_arch);
        if !ok {
            return None;
        }
        let base_len = archive.len();
        let p = EvalPass {
            population,
            archive,
            base_len,
            dist_pop,
            dist_arch,
            k,
            threshold,
            scores: Vec::new(),
        };
        proof {
            assert(p.archive.deep_view().skip(p.base_len as int) =~= spec_archived_agents(
                p.population.deep_view(),
                p.threshold,
                p.scores@,
            ));
        }
        Some(p)
    }

    /// The nearest distances of the agent under evaluation: its whole
    /// distance list sorted ascending and cut to the `min(k, length)`
    /// smallest, or `None` when every agent has been scored. The caller
    /// answers a non-empty request with `supply_mean` and an empty one with
    /// `score_isolated`.
    pub fn request(&self) -> (r: Option<Vec<u64>>)
        requires
            self.wf(),
        ensures
            r is Some <==> self.in_progress(),
            r matches Some(v) ==> v@ == self.current_request(),
    {
        let i = self.scores.len();
        if i >= self.population.len() {
            return None;
        }
        let row = &self.dist_pop[i];
        let arow = &self.dist_arch[i];
        let n = self.population.len();
        proof {
            assert(row@ =~= self.dist_pop.deep_view()[i as int]);
            assert(arow@ =~= self.dist_arch.deep_view()[i as int]);
        }
        let mut ds: Vec<u64> = Vec::new();
        let mut m: usize = 0;
        while m < arow.len()
            invariant
                m <= arow@.len(),
                ds@ == arow@.take(m as int),
            decreases arow@.len() - m,
        {
            ds.push(arow[m]);
            proof {
                assert(ds@ =~= arow@.take(m as int + 1));
            }
            m = m + 1;
        }
        proof {
            assert(arow@.take(arow@.len() as int) =~= arow@);
        }
        let mut j: usize = 0;
        while j < i
            invariant
                j <= i,
                i == self.scores@.len(),
                i < self.dist_pop@.len(),
                row@ == self.dist_pop.deep_view()[i as int],
                arow@ == self.dist_arch.deep_view()[i as int],
                i <= row@.len(),
                ds@ == arow@ + spec_pass_dists(row@, self.threshold, self.scores@.take(j as int)),
            decreases i - j,
        {
            if lt_bits(self.threshold, self.scores[j]) {
                ds.push(row[j]);
            }
            proof {
                let tj = self.scores@.take(j as int + 1);
                assert(tj.drop_last() =~= self.scores@.take(j as int));
                assert(tj.last() == self.scores@[j as int]);
                assert(ds@ =~= arow@ + spec_pass_dists(row@, self.threshold, tj));
            }
            j = j + 1;
        }
        proof {
            assert(self.scores@.take(i as int) =~= self.scores@);
        }
        let ghost head = arow@ + spec_pass_dists(row@, self.threshold, self.scores@);
        let mut j2: usize = 0;
        while j2 < n
            invariant
                j2 <= n,
                i < n,
                n == self.population@.len(),
                row@ == self.dist_pop.deep_view()[i as int],
                row@.len() == n,
                head == arow@ + spec_pass_dists(row@, self.threshold, self.scores@),
                ds@ == head + (if j2 <= i {
                    row@.take(j2 as int)
                } else {
                    row@.take(i as int) + row@.subrange(i as int + 1, j2 as int)
                }),
            decreases n - j2,
        {
            if j2 != i {
                ds.push(row[j2]);
            }
            proof {
                if j2 < i {
                    assert(ds@ =~= head + row@.take(j2 as int + 1));
                } else if j2 == i {
                    assert(ds@ =~= head + (row@.take(i as int) + row@.subrange(
                        i as int + 1,
                        i as int + 1,
                    )));
                } else {
                    assert(ds@ =~= head + (row@.take(i as int) + row@.subrange(
                        i as int + 1,
                        j2 as int + 1,
                    )));
                }
            }
            j2 = j2 + 1;
        }
        proof {
            assert(row@.subrange(i as int + 1, n as int) =~= row@.skip(i as int + 1));
            assert(ds@ =~= spec_dist_list(row@, arow@, self.threshold, self.scores@));
        }
        let mut sorted = sort_bits_asc(&ds);
        let kk = if self.k <= sorted.len() {
            self.k
        } else {
            sorted.len()
        };
        proof {
            crate::sorting::lemma_sort_asc_props(ds@);
        }
        sorted.truncate(kk);
        proof {
            assert(sorted@ =~= self.current_request());
        }
        Some(sorted)
    }

    /// Whether the agent under evaluation has any neighbour to be judged
    /// against: an archive entry or another population member. When it has
    /// none, its distance list is empty and its score is zero by
    /// definition, with nothing owed by the caller.
    pub fn has_neighbours(&self) -> (r: bool)
        requires
            self.wf(),
            self.in_progress(),
        ensures
            r == (self.current_dists().len() > 0),
    {
        proof {
            let i = self.processed();
            let row = self.dist_pop.deep_view()[i];
            let arch_row = self.dist_arch.deep_view()[i];
            lemma_pass_dists_len(
                row,
                self.population.deep_view(),
                self.threshold,
                self.scores@,
            );
            assert(self.current_dists().len() == self.archive@.len() + self.agent_count() - 1);
        }
        self.archive.len() > 0 || self.population.len() > 1
    }

    /// Record the caller's mean of the distances handed out by `request`
    /// as the current agent's novelty score; if it strictly exceeds the
    /// threshold, append a copy of the agent to the archive at once, so
    /// that later agents of the same pass are judged against it too.
    pub fn supply_mean(&mut self, mean: u64)
        requires
            old(self).wf(),
            old(self).in_progress(),
            old(self).current_dists().len() > 0,
            !spec_nan_bits(mean),
        ensures
            final(self).wf(),
            final(self).population == old(self).population,
            final(self).base_len == old(self).base_len,
            final(self).dist_pop == old(self).dist_pop,
            final(self).dist_arch == old(self).dist_arch,
            final(self).k == old(self).k,
            final(self).threshold == old(self).threshold,
            final(self).scores@ == old(self).scores@.push(mean),
            final(self).archive.deep_view() == old(self).archive.deep_view() + (if spec_lt_bits(
                old(self).threshold,
                mean,
            ) {
                seq![old(self).population.deep_view()[old(self).processed()]]
            } else {
                Seq::<Seq<u64>>::empty()
            }),
    {
        self.record_score(mean);
    }

    /// Record a score of zero (the bit pattern of positive zero) for an
    /// agent with no neighbour at all: no archive entry and no other
    /// population member, so its distance list is empty.
    pub fn score_isolated(&mut self)
        requires
            old(self).wf(),
            old(self).in_progress(),
            old(self).current_dists().len() == 0,
        ensures
            final(self).wf(),
            final(self).population == old(self).population,
            final(self).base_len == old(self).base_len,
            final(self).dist_pop == old(self).dist_pop,
            final(self).dist_arch == old(self).dist_arch,
            final(self).k == old(self).k,
            final(self).threshold == old(self).threshold,
            final(self).scores@ == old(self).scores@.push(0u64),
            final(self).archive.deep_view() == old(self).archive.deep_view() + (if spec_lt_bits(
                old(self).threshold,
                0u64,
            ) {
                seq![old(self).population.deep_view()[old(self).processed()]]
            } else {
                Seq::<Seq<u64>>::empty()
            }),
    {
        proof {
            assert(0u64 & 0x7FF0_0000_0000_0000u64 == 0u64) by (bit_vector);
        }
        self.record_score(0u64);
    }

    /// Score the current agent and archive it if it qualifies.
    fn record_score(&mut self, score: u64)
        requires
            old(self).wf(),
            old(self).in_progress(),
            !spec_nan_bits(score),
        ensures
            final(self).wf(),
            final(self).population == old(self).population,
            final(self).base_len == old(self).base_len,
            final(self).dist_pop == old(self).dist_pop,
            final(self).dist_arch == old(self).dist_arch,
            final(self).k == old(self).k,
            final(self).threshold == old(self).threshold,
            final(self).scores@ == old(self).scores@.push(score),
            final(self).archive.deep_view() == old(self).archive.deep_view() + (if spec_lt_bits(
                old(self).threshold,
                score,
            ) {
                seq![old(self).population.deep_view()[old(self).processed()]]
            } else {
                Seq::<Seq<u64>>::empty()
            }),
    {
        let i = self.scores.len();
        let ghost old_arch_dv = self.archive.deep_view();
        let ghost pop_dv = self.population.deep_view();
        if lt_bits(self.threshold, score) {
            let a = self.population[i].clone();
            proof {
                assert(a@ =~= pop_dv[i as int]);
            }
            self.archive.push(a);
            proof {
                assert(self.archive.deep_view() =~~= old_arch_dv + seq![pop_dv[i as int]]);
            }
        }
        self.scores.push(score);
        proof {
            let sc = self.scores@;
            assert(sc.drop_last() =~= old(self).scores@);
            assert(spec_archived_agents(pop_dv, self.threshold, sc) == spec_archived_agents(
                pop_dv,
                self.threshold,
                old(self).scores@,
            ) + (if spec_lt_bits(self.threshold, score) {
                seq![pop_dv[i as int]]
            } else {
                Seq::<Seq<u64>>::empty()
            })) by {
                if spec_lt_bits(self.threshold, score) {
                } else {
                    assert(spec_archived_agents(pop_dv, self.threshold, sc)
                        =~= spec_archived_agents(pop_dv, self.threshold, old(self).scores@)
                        + Seq::<Seq<u64>>::empty());
                }
            }
            assert(self.archive.deep_view().skip(self.base_len as int) =~= spec_archived_agents(
                pop_dv,
                self.threshold,
                sc,
            ));
        }
    }

    /// Close a completed pass: the scored population, sorted by score
    /// descending (agents with equal scores keep population order), and the
    /// archive as grown by the pass.
    pub fn finish(self) -> (r: (Vec<ScoredAgent>, Vec<Vec<u64>>))
        requires
            self.wf(),
            !self.in_progress(),
        ensures
            r.0.deep_view() == spec_sort_desc(
                spec_zip_scored(self.population.deep_view(), self.scores@),
            ),
            r.1 == self.archive,
    {
        let ghost zipped = spec_zip_scored(self.population.deep_view(), self.scores@);
        let EvalPass { population, archive, scores, .. } = self;
        let mut scored: Vec<ScoredAgent> = Vec::new();
        let mut i: usize = 0;
        proof {
            assert(scored.deep_view() =~= zipped.take(0));
        }
        while i < population.len()
            invariant
                i <= population@.len(),
                scores@.len() == population@.len(),
                zipped == spec_zip_scored(population.deep_view(), scores@),
                scored.deep_view() == zipped.take(i as int),
            decreases population@.len() - i,
        {
            let agent = population[i].clone();
            proof {
                assert(agent@ =~= population.deep_view()[i as int]);
            }
            let ghost old_dv = scored.deep_view();
            let sa = ScoredAgent { agent, score: scores[i] };
            let ghost sa_dv = sa.deep_view();
            scored.push(sa);
            proof {
                assert(scored.deep_view() =~= old_dv.push(sa_dv));
                assert(scored.deep_view() =~= zipped.take(i as int + 1));
            }
            i = i + 1;
        }
        proof {
            assert(zipped.take(zipped.len() as int) =~= zipped);
        }
        let sorted = sort_scored_desc(scored);
        (sorted, archive)
    }
}

/// Elitist truncation: the first `alive_agents` agents of the
/// score-sorted input, their scores discarded — or all of them, when fewer
/// are on hand.
pub open spec fn spec_select(scored: Seq<(Seq<u64>, u64)>, alive_agents: int) -> Seq<Seq<u64>> {
    let keep = if alive_agents <= scored.len() {
        alive_agents
    } else {
        scored.len() as int
    };
    Seq::new(keep as nat, |i: int| scored[i].0)
}

/// Keep the `alive_agents` highest-scoring agents of a population already
/// sorted by score descending: a strict truncation of the input, scores
/// discarded. When more survivors are asked for than agents exist, all of
/// them are returned.
pub fn select_novelty(scored_population: &Vec<ScoredAgent>, alive_agents: usize) -> (r: Vec<
    Vec<u64>,
>)
    ensures
        r.deep_view() == spec_select(scored_population.deep_view(), alive_agents as int),
{
    let keep = if alive_agents <= scored_population.len() {
        alive_agents
    } else {
        scored_population.len()
    };
    let ghost target = spec_select(scored_population.deep_view(), alive_agents as int);
    let mut r: Vec<Vec<u64>> = Vec::new();
    let mut i: usize = 0;
    proof {
        assert(r.deep_view() =~= target.take(0));
    }
    while i < keep
        invariant
            i <= keep,
            keep <= scored_population@.len(),
            target == spec_select(scored_population.deep_view(), alive_agents as int),
            target.len() == keep,
            r.deep_view() == target.take(i as int),
        decreases keep - i,
    {
        let agent = scored_population[i].agent.clone();
        proof {
            assert(agent@ =~= scored_population@[i as int].agent@);
            assert(scored_population.deep_view()[i as int].0 == scored_population@[
                i as int].agent@);
        }
        let ghost old_dv = r.deep_view();
        let ghost agent_view = agent@;
        r.push(agent);
        proof {
            assert(r.deep_view() =~~= old_dv.push(agent_view));
            assert(r.deep_view() =~= target.take(i as int + 1));
        }
        i = i + 1;
    }
    proof {
        assert(target.take(keep as int) =~= target);
    }
    r
}

} // verus!
