//! The reproduction pass: refilling the population by crossover and
//! mutation of the survivors.
//!
//! For each child, two parent indices are drawn independently and uniformly
//! with replacement from the survivors — a parent may be crossed with
//! itself. The numeric work on the parents (the componentwise mean, then a
//! noise draw added to every component) is the caller's: `next_parents`
//! hands out the drawn pair, `supply_child` takes the finished child back.
//! No bounds clamping is applied: children may drift outside the initial
//! sampling interval, by design.

use vstd::prelude::*;

verus! {

/// What `ReplenishPass::new` demands of its inputs: at least one survivor
/// to draw from, no more survivors asked for than exist, and all survivors
/// of one dimensionality.
pub open spec fn spec_replenish_inputs_ok(selected: Seq<Seq<u64>>, alive_agents: int) -> bool {
    &&& 1 <= alive_agents <= selected.len()
    &&& forall|i: int| 0 <= i < selected.len() ==> (#[trigger] selected[i]).len() == selected[0].len()
}

/// One reproduction pass. The caller drives it: `next_parents` draws a
/// parent pair from the survivors, `supply_child` records the child the
/// caller produced from that pair, and `finish` hands the offspring back
/// once exactly `offspring_count` of them exist.
pub struct ReplenishPass {
    /// The selected survivors; never changed by the pass.
    pub selected: Vec<Vec<u64>>,
    /// Parent indices are drawn from `0..alive_agents`.
    pub alive_agents: usize,
    /// How many children the pass must produce.
    pub offspring_count: usize,
    /// The dimensionality every survivor and every child has.
    pub dimensions: usize,
    /// The parent index pairs drawn so far, in order.
    pub pairs: Vec<(usize, usize)>,
    /// The children recorded so far; child `c` was produced from
    /// `pairs[c]`.
    pub children: Vec<Vec<u64>>,
    /// Whether a drawn pair still awaits its child.
    pub awaiting: bool,
}

impl ReplenishPass {
    /// Internal consistency: parent indices lie below `alive_agents`,
    /// children and survivors share one dimensionality, and children never
    /// outnumber what was asked for.
    pub open spec fn wf(&self) -> bool {
        &&& 1 <= self.alive_agents as int <= self.selected@.len()
        &&& forall|i: int|
            0 <= i < self.selected@.len() ==> self.selected.deep_view()[i].len()
                == self.dimensions as int
        &&& self.children@.len() <= self.offspring_count
        &&& forall|i: int|
            0 <= i < self.children@.len() ==> self.children.deep_view()[i].len()
                == self.dimensions as int
        &&& self.pairs@.len() == self.children@.len() + (if self.awaiting {
            1int
        } else {
            0int
        })
        &&& forall|i: int|
            0 <= i < self.pairs@.len() ==> self.pairs@[i].0 < self.alive_agents
                && self.pairs@[i].1 < self.alive_agents
        &&& self.awaiting ==> self.children@.len() < self.offspring_count
    }

    /// Whether the pass has produced every child and owes none.
    pub open spec fn complete(&self) -> bool {
        self.children@.len() == self.offspring_count && !self.awaiting
    }

    /// Open a reproduction pass over the given survivors, to produce
    /// `offspring_count` children with parents drawn from the first
    /// `alive_agents` of them. Rejects an empty survivor pool, a draw range
    /// wider than the pool, and survivors of unequal dimensionality, by
    /// returning `None`.
    pub fn new(selected: Vec<Vec<u64>>, alive_agents: usize, offspring_count: usize) -> (r: Option<
        ReplenishPass,
    >)
        ensures
            r is Some <==> spec_replenish_inputs_ok(selected.deep_view(), alive_agents as int),
            r matches Some(p) ==> {
                &&& p.selected == selected
                &&& p.alive_agents == alive_agents
                &&& p.offspring_count == offspring_count
                &&& p.dimensions as int == selected.deep_view()[0].len()
                &&& p.pairs@ == Seq::<(usize, usize)>::empty()
                &&& p.children@ == Seq::<Vec<u64>>::empty()
                &&& !p.awaiting
                &&& p.wf()
            },
    {
        if alive_agents < 1 || alive_agents > selected.len() {
            return None;
        }
        let dimensions = selected[0].len();
        if !crate::novelty::rows_have_len(&selected, dimensions) {
            proof {
                assert(selected.deep_view()[0].len() == selected@[0]@.len());
            }
            return None;
        }
        let p = ReplenishPass {
            selected,
            alive_agents,
            offspring_count,
            dimensions,
            pairs: Vec::new(),
            children: Vec::new(),
            awaiting: false,
        };
        Some(p)
    }

    /// Draw the next parent pair: two indices, independently and uniformly
    /// with replacement from `0..alive_agents`, and hand out copies of the
    /// two survivors so drawn. The caller owes the child before the next
    /// draw.
    pub fn next_parents(&mut self, rng: &mut rand_chacha::ChaCha12Rng) -> (r: (Vec<u64>, Vec<u64>))
        requires
            old(self).wf(),
            !old(self).awaiting,
            old(self).children@.len() < old(self).offspring_count,
        ensures
            final(self).wf(),
            final(self).selected == old(self).selected,
            final(self).alive_agents == old(self).alive_agents,
            final(self).offspring_count == old(self).offspring_count,
            final(self).dimensions == old(self).dimensions,
            final(self).children == old(self).children,
            final(self).awaiting,
            final(self).pairs@.drop_last() == old(self).pairs@,
            final(self).pairs@.len() == old(self).pairs@.len() + 1,
            final(self).pairs@.last().0 < old(self).alive_agents,
            final(self).pairs@.last().1 < old(self).alive_agents,
            r.0@ == old(self).selected.deep_view()[final(self).pairs@.last().0 as int],
            r.1@ == old(self).selected.deep_view()[final(self).pairs@.last().1 as int],
            r.0@.len() == old(self).dimensions,
            r.1@.len() == old(self).dimensions,
    {
        let i1 = crate::rng::draw_index(rng, self.alive_agents);
        let i2 = crate::rng::draw_index(rng, self.alive_agents);
        let p1 = self.selected[i1].clone();
        let p2 = self.selected[i2].clone();
        proof {
            assert(p1@ =~= self.selected.deep_view()[i1 as int]);
            assert(p2@ =~= self.selected.deep_view()[i2 as int]);
        }
        self.pairs.push((i1, i2));
        self.awaiting = true;
        proof {
            assert(self.pairs@.drop_last() =~= old(self).pairs@);
        }
        (p1, p2)
    }

    /// Record the child the caller produced from the last drawn pair: the
    /// componentwise mean of the two parents, each component then shifted
    /// by a fresh noise draw, so its dimensionality is the parents'.
    pub fn supply_child(&mut self, child: Vec<u64>)
        requires
            old(self).wf(),
            old(self).awaiting,
            child@.len() == old(self).dimensions,
        ensures
            final(self).wf(),
            final(self).selected == old(self).selected,
            final(self).alive_agents == old(self).alive_agents,
            final(self).offspring_count == old(self).offspring_count,
            final(self).dimensions == old(self).dimensions,
            final(self).pairs == old(self).pairs,
            !final(self).awaiting,
            final(self).children.deep_view() == old(self).children.deep_view() + seq![child@],
    {
        let ghost child_view = child@;
        let ghost old_dv = self.children.deep_view();
        self.children.push(child);
        self.awaiting = false;
        proof {
            assert(self.children.deep_view() =~~= old_dv + seq![child_view]);
        }
    }

    /// Whether the pass still owes children or a child.
    pub fn is_complete(&self) -> (r: bool)
        ensures
            r == self.complete(),
    {
        self.children.len() == self.offspring_count && !self.awaiting
    }

    /// Close a completed pass: exactly `offspring_count` children, in the
    /// order they were produced, each of the survivors' dimensionality.
    pub fn finish(self) -> (r: Vec<Vec<u64>>)
        requires
            self.wf(),
            self.complete(),
        ensures
            r.deep_view() == self.children.deep_view(),
            r@.len() == self.offspring_count,
            forall|i: int| 0 <= i < r@.len() ==> r.deep_view()[i].len() == self.dimensions as int,
    {
        let ReplenishPass { children, .. } = self;
        children
    }
}

} // verus!
