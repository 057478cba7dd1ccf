//! Sorting under the bit-pattern order.
//!
//! Distance lists are sorted ascending; scored agents are sorted by score
//! descending with a stable rule, so that agents with equal scores keep
//! their original relative order. Both sorts are specified exactly, as
//! recursive insertion into an already sorted sequence: the specification
//! pins the complete output, not merely sortedness.

use vstd::prelude::*;
use crate::bits::{spec_le_bits, le_bits};
use crate::scored::ScoredAgent;

verus! {

/// `x` inserted into `s` before the first element that is not below `x`.
pub open spec fn spec_insert_asc(x: u64, s: Seq<u64>) -> Seq<u64>
    decreases s.len(),
{
    if s.len() == 0 {
        seq![x]
    } else if spec_le_bits(x, s[0]) {
        seq![x] + s
    } else {
        seq![s[0]] + spec_insert_asc(x, s.drop_first())
    }
}

/// Insertion sort, ascending in the bit-pattern order.
pub open spec fn spec_sort_asc(s: Seq<u64>) -> Seq<u64>
    decreases s.len(),
{
    if s.len() == 0 {
        Seq::empty()
    } else {
        spec_insert_asc(s[0], spec_sort_asc(s.drop_first()))
    }
}

/// Ascending order of a whole sequence.
pub open spec fn spec_sorted_asc(s: Seq<u64>) -> bool {
    forall|i: int, j: int| 0 <= i < j < s.len() ==> spec_le_bits(s[i], s[j])
}

/// Inserting at the position `p` where every earlier element is strictly
/// below `x` and the element at `p`, if any, is not, is what
/// `spec_insert_asc` does.
proof fn lemma_insert_asc_at(x: u64, s: Seq<u64>, p: int)
    requires
        0 <= p <= s.len(),
        forall|j: int| 0 <= j < p ==> !spec_le_bits(x, s[j]),
        p < s.len() ==> spec_le_bits(x, s[p]),
    ensures
        spec_insert_asc(x, s) == s.insert(p, x),
    decreases s.len(),
{
    if s.len() == 0 {
        assert(spec_insert_asc(x, s) =~= s.insert(p, x));
    } else if p == 0 {
        assert(spec_insert_asc(x, s) =~= s.insert(0, x));
    } else {
        lemma_insert_asc_at(x, s.drop_first(), p - 1);
        assert(spec_insert_asc(x, s) =~= s.insert(p, x));
    }
}

/// What `spec_insert_asc` returns: one element longer, holding `x` and the
/// elements of `s` and nothing else, and sorted whenever `s` was.
proof fn lemma_insert_asc_props(x: u64, s: Seq<u64>)
    ensures
        spec_insert_asc(x, s).len() == s.len() + 1,
        spec_insert_asc(x, s).to_multiset() == s.to_multiset().insert(x),
        spec_sorted_asc(s) ==> spec_sorted_asc(spec_insert_asc(x, s)),
    decreases s.len(),
{
    broadcast use vstd::seq_lib::group_to_multiset_ensures;

    let r = spec_insert_asc(x, s);
    if s.len() == 0 {
        assert(r =~= Seq::empty().push(x));
        assert(r.to_multiset() == s.to_multiset().insert(x));
    } else if spec_le_bits(x, s[0]) {
        assert(r =~= s.insert(0, x));
        lemma_multiset_insert_any(s, 0, x);
        if spec_sorted_asc(s) {
            assert forall|i: int, j: int| 0 <= i < j < r.len() implies spec_le_bits(
                r[i],
                r[j],
            ) by {
                if i == 0 {
                    assert(r[j] == s[j - 1]);
                    if j > 1 {
                        assert(spec_le_bits(s[0], s[j - 1]));
                    }
                } else {
                    assert(r[i] == s[i - 1] && r[j] == s[j - 1]);
                }
            }
        }
    } else {
        let rest = spec_insert_asc(x, s.drop_first());
        lemma_insert_asc_props(x, s.drop_first());
        assert(r =~= rest.insert(0, s[0]));
        lemma_multiset_insert_any(rest, 0, s[0]);
        assert(s =~= s.drop_first().insert(0, s[0]));
        lemma_multiset_insert_any(s.drop_first(), 0, s[0]);
        assert(r.to_multiset() == s.to_multiset().insert(x)) by {
            assert(r.to_multiset() == rest.to_multiset().insert(s[0]));
            assert(rest.to_multiset() == s.drop_first().to_multiset().insert(x));
            assert(s.to_multiset() == s.drop_first().to_multiset().insert(s[0]));
            assert(s.drop_first().to_multiset().insert(x).insert(s[0])
                =~= s.drop_first().to_multiset().insert(s[0]).insert(x));
        }
        if spec_sorted_asc(s) {
            assert(spec_sorted_asc(s.drop_first())) by {
                assert(forall|i: int, j: int|
                    0 <= i < j < s.drop_first().len() ==> spec_le_bits(
                        s.drop_first()[i],
                        s.drop_first()[j],
                    ));
            }
            assert forall|i: int, j: int| 0 <= i < j < r.len() implies spec_le_bits(
                r[i],
                r[j],
            ) by {
                if i == 0 {
                    assert(r[j] == rest[j - 1]);
                    lemma_insert_asc_member(x, s.drop_first(), j - 1);
                }
            }
        }
    }
}

/// Every element of `spec_insert_asc(x, s)` is `x` or an element of `s`.
proof fn lemma_insert_asc_member(x: u64, s: Seq<u64>, j: int)
    requires
        0 <= j < spec_insert_asc(x, s).len(),
    ensures
        spec_insert_asc(x, s)[j] == x || exists|m: int|
            0 <= m < s.len() && s[m] == spec_insert_asc(x, s)[j],
    decreases s.len(),
{
    if s.len() == 0 {
    } else if spec_le_bits(x, s[0]) {
        if j > 0 {
            assert(s[j - 1] == spec_insert_asc(x, s)[j]);
        }
    } else {
        if j > 0 {
            lemma_insert_asc_member(x, s.drop_first(), j - 1);
            if spec_insert_asc(x, s.drop_first())[j - 1] != x {
                let m = choose|m: int|
                    0 <= m < s.drop_first().len() && s.drop_first()[m] == spec_insert_asc(
                        x,
                        s.drop_first(),
                    )[j - 1];
                assert(s[m + 1] == spec_insert_asc(x, s)[j]);
            }
        }
    }
}

/// Inserting anywhere adds one occurrence to the multiset.
proof fn lemma_multiset_insert_any(s: Seq<u64>, p: int, x: u64)
    requires
        0 <= p <= s.len(),
    ensures
        s.insert(p, x).to_multiset() == s.to_multiset().insert(x),
    decreases s.len(),
{
    broadcast use vstd::seq_lib::group_to_multiset_ensures;

    if p == s.len() {
        assert(s.insert(p, x) =~= s.push(x));
    } else if s.len() == 0 {
        assert(s.insert(p, x) =~= seq![x]);
        assert(seq![x] =~= Seq::empty().push(x));
    } else {
        let t = s.drop_last();
        lemma_multiset_insert_any(t, p, x);
        assert(s =~= t.push(s.last()));
        assert(s.insert(p, x) =~= t.insert(p, x).push(s.last()));
        assert(s.insert(p, x).to_multiset() == s.to_multiset().insert(x)) by {
            assert(s.insert(p, x).to_multiset() == t.insert(p, x).to_multiset().insert(s.last()));
            assert(t.insert(p, x).to_multiset() == t.to_multiset().insert(x));
            assert(s.to_multiset() == t.to_multiset().insert(s.last()));
            assert(t.to_multiset().insert(x).insert(s.last()) =~= t.to_multiset().insert(
                s.last(),
            ).insert(x));
        }
    }
}

/// The sort returns a sorted permutation of its input.
pub proof fn lemma_sort_asc_props(s: Seq<u64>)
    ensures
        spec_sort_asc(s).len() == s.len(),
        spec_sort_asc(s).to_multiset() == s.to_multiset(),
        spec_sorted_asc(spec_sort_asc(s)),
    decreases s.len(),
{
    broadcast use vstd::seq_lib::group_to_multiset_ensures;

    if s.len() == 0 {
    } else {
        lemma_sort_asc_props(s.drop_first());
        lemma_insert_asc_props(s[0], spec_sort_asc(s.drop_first()));
        assert(s =~= s.drop_first().insert(0, s[0]));
        lemma_multiset_insert_any(s.drop_first(), 0, s[0]);
    }
}

/// Sort a list of bit patterns ascending.
pub fn sort_bits_asc(v: &Vec<u64>) -> (r: Vec<u64>)
    ensures
        r@ == spec_sort_asc(v@),
{
    let mut r: Vec<u64> = Vec::new();
    let mut i: usize = v.len();
    proof {
        assert(v@.skip(v@.len() as int) =~= Seq::<u64>::empty());
    }
    while i > 0
        invariant
            i <= v.len(),
            r@ == spec_sort_asc(v@.skip(i as int)),
        decreases i,
    {
        i = i - 1;
        let x = v[i];
        let mut p: usize = 0;
        while p < r.len() && !le_bits(x, r[p])
            invariant
                p <= r.len(),
                forall|j: int| 0 <= j < p ==> !spec_le_bits(x, r@[j]),
            decreases r.len() - p,
        {
            p = p + 1;
        }
        proof {
            lemma_insert_asc_at(x, r@, p as int);
        }
        let ghost old_r = r@;
        r.insert(p, x);
        proof {
            let rest = v@.skip(i as int + 1);
            assert(v@.skip(i as int).drop_first() =~= rest);
            assert(v@.skip(i as int)[0] == v@[i as int]);
            assert(r@ == spec_insert_asc(x, spec_sort_asc(rest)));
        }
    }
    proof {
        assert(v@.skip(0) =~= v@);
    }
    r
}

/// `x` inserted into `s` before the first element whose score is not above
/// `x`'s. An element already in place wins a tie only if its score is
/// strictly above, so an inserted element precedes the elements it ties
/// with: repeated insertion from the front is a stable descending sort.
pub open spec fn spec_insert_desc(x: (Seq<u64>, u64), s: Seq<(Seq<u64>, u64)>) -> Seq<
    (Seq<u64>, u64),
>
    decreases s.len(),
{
    if s.len() == 0 {
        seq![x]
    } else if spec_le_bits(s[0].1, x.1) {
        seq![x] + s
    } else {
        seq![s[0]] + spec_insert_desc(x, s.drop_first())
    }
}

/// Stable insertion sort by score, descending: agents with equal scores
/// keep their order in `s`.
pub open spec fn spec_sort_desc(s: Seq<(Seq<u64>, u64)>) -> Seq<(Seq<u64>, u64)>
    decreases s.len(),
{
    if s.len() == 0 {
        Seq::empty()
    } else {
        spec_insert_desc(s[0], spec_sort_desc(s.drop_first()))
    }
}

/// Non-increasing score order over a whole sequence.
pub open spec fn spec_sorted_desc(s: Seq<(Seq<u64>, u64)>) -> bool {
    forall|i: int, j: int| 0 <= i < j < s.len() ==> spec_le_bits(s[j].1, s[i].1)
}

/// Inserting at the position `p` where every earlier element scores
/// strictly above `x` and the element at `p`, if any, does not, is what
/// `spec_insert_desc` does.
proof fn lemma_insert_desc_at(x: (Seq<u64>, u64), s: Seq<(Seq<u64>, u64)>, p: int)
    requires
        0 <= p <= s.len(),
        forall|j: int| 0 <= j < p ==> !spec_le_bits(s[j].1, x.1),
        p < s.len() ==> spec_le_bits(s[p].1, x.1),
    ensures
        spec_insert_desc(x, s) == s.insert(p, x),
    decreases s.len(),
{
    if s.len() == 0 {
        assert(spec_insert_desc(x, s) =~= s.insert(p, x));
    } else if p == 0 {
        assert(spec_insert_desc(x, s) =~= s.insert(0, x));
    } else {
        lemma_insert_desc_at(x, s.drop_first(), p - 1);
        assert(spec_insert_desc(x, s) =~= s.insert(p, x));
    }
}

/// Inserting anywhere adds one occurrence to the multiset.
proof fn lemma_multiset_insert_any_pair(s: Seq<(Seq<u64>, u64)>, p: int, x: (Seq<u64>, u64))
    requires
        0 <= p <= s.len(),
    ensures
        s.insert(p, x).to_multiset() == s.to_multiset().insert(x),
    decreases s.len(),
{
    broadcast use vstd::seq_lib::group_to_multiset_ensures;

    if p == s.len() {
        assert(s.insert(p, x) =~= s.push(x));
    } else if s.len() == 0 {
        assert(s.insert(p, x) =~= Seq::empty().push(x));
    } else {
        let t = s.drop_last();
        lemma_multiset_insert_any_pair(t, p, x);
        assert(s =~= t.push(s.last()));
        assert(s.insert(p, x) =~= t.insert(p, x).push(s.last()));
        assert(s.insert(p, x).to_multiset() == s.to_multiset().insert(x)) by {
            assert(s.insert(p, x).to_multiset() == t.insert(p, x).to_multiset().insert(s.last()));
            assert(t.insert(p, x).to_multiset() == t.to_multiset().insert(x));
            assert(s.to_multiset() == t.to_multiset().insert(s.last()));
            assert(t.to_multiset().insert(x).insert(s.last()) =~= t.to_multiset().insert(
                s.last(),
            ).insert(x));
        }
    }
}

/// What `spec_insert_desc` returns: one element longer, the multiset of `s`
/// plus `x`, and sorted descending whenever `s` was.
proof fn lemma_insert_desc_props(x: (Seq<u64>, u64), s: Seq<(Seq<u64>, u64)>)
    ensures
        spec_insert_desc(x, s).len() == s.len() + 1,
        spec_insert_desc(x, s).to_multiset() == s.to_multiset().insert(x),
        spec_sorted_desc(s) ==> spec_sorted_desc(spec_insert_desc(x, s)),
    decreases s.len(),
{
    broadcast use vstd::seq_lib::group_to_multiset_ensures;

    let r = spec_insert_desc(x, s);
    if s.len() == 0 {
        assert(r =~= Seq::empty().push(x));
    } else if spec_le_bits(s[0].1, x.1) {
        assert(r =~= s.insert(0, x));
        lemma_multiset_insert_any_pair(s, 0, x);
        if spec_sorted_desc(s) {
            assert forall|i: int, j: int| 0 <= i < j < r.len() implies spec_le_bits(
                r[j].1,
                r[i].1,
            ) by {
                if i == 0 {
                    assert(r[j] == s[j - 1]);
                    if j > 1 {
                        assert(spec_le_bits(s[j - 1].1, s[0].1));
                    }
                } else {
                    assert(r[i] == s[i - 1] && r[j] == s[j - 1]);
                }
            }
        }
    } else {
        let rest = spec_insert_desc(x, s.drop_first());
        lemma_insert_desc_props(x, s.drop_first());
        assert(r =~= rest.insert(0, s[0]));
        lemma_multiset_insert_any_pair(rest, 0, s[0]);
        assert(s =~= s.drop_first().insert(0, s[0]));
        lemma_multiset_insert_any_pair(s.drop_first(), 0, s[0]);
        assert(r.to_multiset() == s.to_multiset().insert(x)) by {
            assert(r.to_multiset() == rest.to_multiset().insert(s[0]));
            assert(rest.to_multiset() == s.drop_first().to_multiset().insert(x));
            assert(s.to_multiset() == s.drop_first().to_multiset().insert(s[0]));
            assert(s.drop_first().to_multiset().insert(x).insert(s[0]) =~= s.drop_first()
                .to_multiset()
                .insert(s[0])
                .insert(x));
        }
        if spec_sorted_desc(s) {
            assert(spec_sorted_desc(s.drop_first())) by {
                assert(forall|i: int, j: int|
                    0 <= i < j < s.drop_first().len() ==> spec_le_bits(
                        s.drop_first()[j].1,
                        s.drop_first()[i].1,
                    ));
            }
            assert forall|i: int, j: int| 0 <= i < j < r.len() implies spec_le_bits(
                r[j].1,
                r[i].1,
            ) by {
                if i == 0 {
                    assert(r[j] == rest[j - 1]);
                    lemma_insert_desc_member(x, s.drop_first(), j - 1);
                }
            }
        }
    }
}

/// Every element of `spec_insert_desc(x, s)` is `x` or an element of `s`.
proof fn lemma_insert_desc_member(x: (Seq<u64>, u64), s: Seq<(Seq<u64>, u64)>, j: int)
    requires
        0 <= j < spec_insert_desc(x, s).len(),
    ensures
        spec_insert_desc(x, s)[j] == x || exists|m: int|
            0 <= m < s.len() && s[m] == spec_insert_desc(x, s)[j],
    decreases s.len(),
{
    if s.len() == 0 {
    } else if spec_le_bits(s[0].1, x.1) {
        if j > 0 {
            assert(s[j - 1] == spec_insert_desc(x, s)[j]);
        }
    } else {
        if j > 0 {
            lemma_insert_desc_member(x, s.drop_first(), j - 1);
            if spec_insert_desc(x, s.drop_first())[j - 1] != x {
                let m = choose|m: int|
                    0 <= m < s.drop_first().len() && s.drop_first()[m] == spec_insert_desc(
                        x,
                        s.drop_first(),
                    )[j - 1];
                assert(s[m + 1] == spec_insert_desc(x, s)[j]);
            }
        }
    }
}

/// The descending sort returns a sorted permutation of its input.
pub proof fn lemma_sort_desc_props(s: Seq<(Seq<u64>, u64)>)
    ensures
        spec_sort_desc(s).len() == s.len(),
        spec_sort_desc(s).to_multiset() == s.to_multiset(),
        spec_sorted_desc(spec_sort_desc(s)),
    decreases s.len(),
{
    broadcast use vstd::seq_lib::group_to_multiset_ensures;

    if s.len() == 0 {
    } else {
        lemma_sort_desc_props(s.drop_first());
        lemma_insert_desc_props(s[0], spec_sort_desc(s.drop_first()));
        assert(s =~= s.drop_first().insert(0, s[0]));
        lemma_multiset_insert_any_pair(s.drop_first(), 0, s[0]);
    }
}

/// Sort scored agents by score descending, stably: agents with equal
/// scores keep their relative order.
pub fn sort_scored_desc(v: Vec<ScoredAgent>) -> (r: Vec<ScoredAgent>)
    ensures
        r.deep_view() == spec_sort_desc(v.deep_view()),
{
    let ghost orig = v.deep_view();
    let mut v = v;
    let mut r: Vec<ScoredAgent> = Vec::new();
    proof {
        assert(orig.skip(orig.len() as int) =~= Seq::<(Seq<u64>, u64)>::empty());
        assert(r.deep_view() =~= Seq::<(Seq<u64>, u64)>::empty());
        assert(v.deep_view() =~= orig.take(v@.len() as int));
    }
    while v.len() > 0
        invariant
            v@.len() <= orig.len(),
            v.deep_view() == orig.take(v@.len() as int),
            r.deep_view() == spec_sort_desc(orig.skip(v@.len() as int)),
        decreases v@.len(),
    {
        let ghost n = v@.len() as int;
        let ghost vv = v@;
        let ghost vdv = v.deep_view();
        let x = v.pop().unwrap();
        proof {
            assert(v.deep_view() =~= orig.take(n - 1));
            assert(vdv[n - 1] == vv[n - 1].deep_view());
            assert(x.deep_view() == orig[n - 1]);
        }
        let mut p: usize = 0;
        while p < r.len() && !le_bits(r[p].score, x.score)
            invariant
                p <= r@.len(),
                forall|j: int| 0 <= j < p ==> !spec_le_bits(r.deep_view()[j].1, x.deep_view().1),
            decreases r@.len() - p,
        {
            proof {
                assert(r.deep_view()[p as int].1 == r@[p as int].score);
            }
            p = p + 1;
        }
        proof {
            assert(p < r@.len() ==> r.deep_view()[p as int].1 == r@[p as int].score);
            lemma_insert_desc_at(x.deep_view(), r.deep_view(), p as int);
        }
        let ghost old_r_dv = r.deep_view();
        r.insert(p, x);
        proof {
            assert(r.deep_view() =~= old_r_dv.insert(p as int, x.deep_view()));
            let rest = orig.skip(n);
            assert(orig.skip(n - 1).drop_first() =~= rest);
            assert(orig.skip(n - 1)[0] == orig[n - 1]);
            assert(r.deep_view() == spec_insert_desc(orig[n - 1], spec_sort_desc(rest)));
        }
    }
    proof {
        assert(orig.skip(0) =~= orig);
    }
    r
}

} // verus!
