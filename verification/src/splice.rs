//! Replacing a run of an element's children by other elements.

use vstd::prelude::*;
use crate::forest::{
    attached, attached_all, can_splice, detached, detached_all, insertion_index, is_within,
    lemma_reparented_parents, lemma_remove_at, lemma_within_kept, lemma_within_self, place_after, reparented,
    splice_place, spliced,
};
use crate::tree::{index_in, Tree};

verus! {

/// Whether no id occurs twice in `ids`.
pub fn all_distinct(ids: &Vec<u64>) -> (b: bool)
    ensures
        b == ids@.no_duplicates(),
{
    let mut i: usize = 0;
    while i < ids.len()
        invariant
            i <= ids@.len(),
            forall|a: int, b: int| 0 <= a < b < i ==> ids@[a] != ids@[b],
        decreases ids@.len() - i,
    {
        let mut j: usize = 0;
        while j < i
            invariant
                j <= i < ids@.len(),
                forall|a: int| 0 <= a < j ==> ids@[a] != ids@[i as int],
            decreases i - j,
        {
            if ids[j] == ids[i] {
                return false;
            }
            j += 1;
        }
        i += 1;
    }
    true
}

impl Tree {
    /// Whether the children of `node` from `start` up to `end` can give way
    /// to `ids`.
    pub fn can_splice(&self, node: u64, start: usize, end: usize, ids: &Vec<u64>) -> (b: bool)
        requires
            self.wf(),
        ensures
            b == can_splice(self@, node, start as int, end as int, ids@),
    {
        if !self.contains(node) || start > end || end > self.child_count(node) {
            return false;
        }
        if !all_distinct(ids) {
            return false;
        }
        let mut k: usize = 0;
        while k < ids.len()
            invariant
                self.wf(),
                k <= ids@.len(),
                forall|j: int|
                    0 <= j < k ==> self@.dom().contains(#[trigger] ids@[j]) && !is_within(self@, node, ids@[j]),
            decreases ids@.len() - k,
        {
            if !self.contains(ids[k]) || self.within(node, ids[k]) {
                return false;
            }
            k += 1;
        }
        true
    }

    /// Makes each of `ids` a root, and says where the place `at` among the
    /// children of `node` has moved to.
    fn release(&mut self, node: u64, ids: &Vec<u64>, at: usize) -> (place: usize)
        requires
            old(self).wf(),
            old(self)@.dom().contains(node),
            at <= old(self)@[node].children.len(),
            forall|j: int|
                0 <= j < ids@.len() ==> old(self)@.dom().contains(#[trigger] ids@[j]) && !is_within(
                    old(self)@,
                    node,
                    ids@[j],
                ),
        ensures
            final(self).wf(),
            final(self)@ == detached_all(old(self)@, ids@),
            place == place_after(old(self)@, node, ids@, at as int),
            place <= final(self)@[node].children.len(),
            final(self)@.dom() == old(self)@.dom(),
            forall|a: u64| is_within(final(self)@, node, a) == is_within(old(self)@, node, a),
            forall|j: int| 0 <= j < ids@.len() ==> final(self)@[#[trigger] ids@[j]].parent is None,
            forall|y: u64|
                old(self)@.dom().contains(y) && !ids@.contains(y) ==> (#[trigger] final(self)@[y]).parent == old(
                    self,
                )@[y].parent,
            final(self).free_ids() == old(self).free_ids(),
            final(self).high_water() == old(self).high_water(),
    {
        let ghost m0 = self@;
        let mut place: usize = at;
        let mut k: usize = 0;
        proof {
            assert(ids@.take(0) =~= Seq::empty());
        }
        while k < ids.len()
            invariant
                self.wf(),
                k <= ids@.len(),
                m0.dom().contains(node),
                self@.dom() == m0.dom(),
                self@ == detached_all(m0, ids@.take(k as int)),
                place == place_after(m0, node, ids@.take(k as int), at as int),
                place <= self@[node].children.len(),
                forall|a: u64| is_within(self@, node, a) == is_within(m0, node, a),
                forall|j: int|
                    0 <= j < ids@.len() ==> m0.dom().contains(#[trigger] ids@[j]) && !is_within(m0, node, ids@[j]),
                forall|j: int| 0 <= j < k ==> self@[#[trigger] ids@[j]].parent is None,
                forall|y: u64|
                    m0.dom().contains(y) && !ids@.take(k as int).contains(y) ==> (#[trigger] self@[y]).parent
                        == m0[y].parent,
                self.free_ids() == old(self).free_ids(),
                self.high_water() == old(self).high_water(),
            decreases ids@.len() - k,
        {
            let r: u64 = ids[k];
            let ghost cur = self@;
            proof {
                self.law_links_agree();
                lemma_within_self(cur, node);
                assert(r != node);
                lemma_reparented_parents(cur, r, None, None);
                lemma_within_kept(cur, detached(cur, r), r, node);
                assert(ids@.take(k + 1).drop_last() =~= ids@.take(k as int));
                assert(ids@.take(k + 1).last() == r);
            }
            if self.parent(r) == Some(node) {
                let kids = self.children(node);
                let found = index_in(&kids, r);
                assert(kids@.contains(r));
                let i: usize = found.unwrap();
                proof {
                    assert(kids@.index_of(r) == i);
                    lemma_remove_at(kids@, i as int);
                }
                if i < place {
                    place = place - 1;
                }
            }
            self.detach(r);
            proof {
                assert forall|y: u64| m0.dom().contains(y) && !ids@.take(k + 1).contains(y) implies (
                #[trigger] self@[y]).parent == m0[y].parent by {
                    assert(ids@.take(k + 1)[k as int] == r);
                    if ids@.take(k as int).contains(y) {
                        let j = choose|j: int| 0 <= j < k && ids@.take(k as int)[j] == y;
                        assert(ids@.take(k + 1)[j] == y);
                    }
                }
                assert forall|j: int| 0 <= j < k + 1 implies self@[#[trigger] ids@[j]].parent is None by {}
            }
            k += 1;
        }
        proof {
            assert(ids@.take(ids@.len() as int) =~= ids@);
        }
        place
    }

    /// Replaces the children of `node` from `start` up to `end` by `ids` and
    /// returns the children that left. The new children leave the parents
    /// they had; one that was a child of `node` outside the range moves.
    /// `None`, and no change, where the splice cannot be done: where the
    /// range does not lie in the children, or where a new child is not
    /// stored, is named twice, or is `node` or one of its ancestors.
    pub fn splice_children(&mut self, node: u64, start: usize, end: usize, ids: &Vec<u64>) -> (out: Option<Vec<u64>>)
        requires
            old(self).wf(),
        ensures
            final(self).wf(),
            final(self)@ == spliced(old(self)@, node, start as int, end as int, ids@),
            final(self).free_ids() == old(self).free_ids(),
            final(self).high_water() == old(self).high_water(),
            final(self)@.dom() == old(self)@.dom(),
            match out {
                Some(gone) => {
                    &&& can_splice(old(self)@, node, start as int, end as int, ids@)
                    &&& gone@ == old(self)@[node].children.subrange(start as int, end as int)
                    &&& final(self)@[node].children.subrange(
                        splice_place(old(self)@, node, start as int, end as int, ids@),
                        splice_place(old(self)@, node, start as int, end as int, ids@) + ids@.len(),
                    ) == ids@
                    &&& forall|k: int| 0 <= k < ids@.len() ==> final(self)@[#[trigger] ids@[k]].parent == Some(node)
                    &&& forall|j: int|
                        0 <= j < gone@.len() && !ids@.contains(gone@[j]) ==> final(self)@[#[trigger] gone@[j]].parent
                            is None
                },
                None => !can_splice(old(self)@, node, start as int, end as int, ids@),
            },
    {
        if !self.can_splice(node, start, end, ids) {
            return None;
        }
        let ghost m0 = self@;
        let kids = self.children(node);
        let gone = cut_ids(&kids, start, end);
        proof {
            self.law_links_agree();
            assert forall|j: int| 0 <= j < gone@.len() implies m0.dom().contains(#[trigger] gone@[j]) && !is_within(
                m0,
                node,
                gone@[j],
            ) by {
                let c = gone@[j];
                assert(m0[node].children[start + j] == c);
                self.law_no_cycle(c);
            }
        }
        let kept = self.release(node, &gone, start);
        let ghost m1 = self@;
        let place = self.release(node, ids, kept);
        let ghost m2 = self@;
        let ghost p = place as int;
        let mut k: usize = 0;
        proof {
            assert(ids@.take(0) =~= Seq::empty());
            assert(m2[node].children.subrange(p, p) =~= ids@.take(0));
        }
        while k < ids.len()
            invariant
                self.wf(),
                k <= ids@.len(),
                ids@.no_duplicates(),
                m0.dom().contains(node),
                self@.dom() == m0.dom(),
                self@ == attached_all(m2, node, ids@.take(k as int), p),
                p == place,
                p + k <= self@[node].children.len(),
                self@[node].children.subrange(p, p + k) == ids@.take(k as int),
                forall|a: u64| is_within(self@, node, a) == is_within(m0, node, a),
                forall|j: int|
                    0 <= j < ids@.len() ==> m0.dom().contains(#[trigger] ids@[j]) && !is_within(m0, node, ids@[j]),
                forall|j: int| k <= j < ids@.len() ==> self@[#[trigger] ids@[j]].parent is None,
                forall|j: int| 0 <= j < k ==> self@[#[trigger] ids@[j]].parent == Some(node),
                forall|y: u64|
                    m0.dom().contains(y) && !ids@.contains(y) ==> (#[trigger] self@[y]).parent == m2[y].parent,
                self.free_ids() == old(self).free_ids(),
                self.high_water() == old(self).high_water(),
            decreases ids@.len() - k,
        {
            let r: u64 = ids[k];
            let ghost cur = self@;
            let ghost list = cur[node].children;
            let count: usize = self.child_count(node);
            proof {
                assert(p + k <= count);
                self.law_links_agree();
                lemma_within_self(cur, node);
                assert(r != node);
                lemma_reparented_parents(cur, r, Some(node), Some(p + k));
                lemma_within_kept(cur, reparented(cur, r, Some(node), Some(p + k)), r, node);
                assert(detached(cur, r) == cur);
                assert(insertion_index(list.len() as int, Some(p + k)) == p + k);
                assert(reparented(cur, r, Some(node), Some(p + k)) == attached(cur, r, node, p + k));
                assert(ids@.take(k + 1).drop_last() =~= ids@.take(k as int));
                assert(ids@.take(k + 1).last() == r);
                assert(ids@.take(k + 1).len() == k + 1);
                assert(list.insert(p + k, r).subrange(p, p + k + 1) =~= list.subrange(p, p + k).push(r));
                assert(ids@.take(k + 1) =~= ids@.take(k as int).push(r));
            }
            self.link_at(r, node, place + k);
            proof {
                assert forall|j: int| k + 1 <= j < ids@.len() implies self@[#[trigger] ids@[j]].parent is None by {
                    assert(ids@[j] != r);
                }
                assert forall|j: int| 0 <= j < k + 1 implies self@[#[trigger] ids@[j]].parent == Some(node) by {
                    if j < k {
                        assert(ids@[j] != r);
                    }
                }
            }
            k += 1;
        }
        proof {
            assert(ids@.take(ids@.len() as int) =~= ids@);
            assert forall|j: int| 0 <= j < gone@.len() && !ids@.contains(gone@[j]) implies
                self@[#[trigger] gone@[j]].parent is None by {
                assert(m1[gone@[j]].parent is None);
                assert(m2[gone@[j]].parent == m1[gone@[j]].parent);
            }
        }
        Some(gone)
    }
}

/// A copy of the ids of `v` from `start` up to `end`.
pub fn cut_ids(v: &Vec<u64>, start: usize, end: usize) -> (part: Vec<u64>)
    requires
        start <= end <= v@.len(),
    ensures
        part@ == v@.subrange(start as int, end as int),
{
    let mut part: Vec<u64> = Vec::new();
    let mut i: usize = start;
    while i < end
        invariant
            start <= i <= end <= v@.len(),
            part@ == v@.subrange(start as int, i as int),
        decreases end - i,
    {
        part.push(v[i]);
        assert(v@.subrange(start as int, i + 1) =~= v@.subrange(start as int, i as int).push(v@[i as int]));
        i += 1;
    }
    part
}

} // verus!
