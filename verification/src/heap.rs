//! The heap container.
//!
//! `Heap<T, C>` stores its elements in a vector laid out as an implicit binary
//! tree: the children of the node at index `i` sit at `2 * i + 1` and
//! `2 * i + 2`, its parent at `(i - 1) / 2`. The well-formedness predicate
//! `wf` says that no child outranks its parent under the heap's comparator,
//! so the root is always an element of highest priority.

use vstd::prelude::*;
use vstd::pervasive::VecAdditionalExecFns;

use crate::order::Comparator;
use crate::order::MaxOrder;
use crate::order::MinOrder;
use crate::order::StrictOrdered;
use crate::order::consistent;
use crate::order::lemma_consistent_transitive;
use crate::order::lemma_max_order_consistent;
use crate::order::lemma_min_order_consistent;

verus! {

/// The index of the parent of node `i`, for `i >= 1`.
pub open spec fn parent_index(i: int) -> int {
    (i - 1) / 2
}

/// The edge from node `i` up to its parent respects the comparator: the child
/// does not outrank the parent.
pub open spec fn parent_link_ok<T, C: Comparator<T>>(c: C, s: Seq<T>, i: int) -> bool {
    !c.outranks(s[i], s[parent_index(i)])
}

/// Every edge of the implicit tree respects the comparator. This is the heap
/// property: no child outranks its parent.
pub open spec fn heap_ordered<T, C: Comparator<T>>(c: C, s: Seq<T>) -> bool {
    forall|i: int| 1 <= i < s.len() ==> #[trigger] parent_link_ok(c, s, i)
}

/// The sequence `s` with the elements at positions `i` and `j` exchanged.
spec fn swap_seq<T>(s: Seq<T>, i: int, j: int) -> Seq<T> {
    s.update(i, s[j]).update(j, s[i])
}

/// The heap property everywhere except possibly on the edge from node `j` up
/// to its parent. This is the state of the storage while a new element is
/// sifting up from position `j`.
spec fn heap_except_node<T, C: Comparator<T>>(c: C, s: Seq<T>, j: int) -> bool {
    forall|i: int| 1 <= i < s.len() && i != j ==> #[trigger] parent_link_ok(c, s, i)
}

/// The heap property everywhere except possibly on the edges from the
/// children of node `j` up to `j`. This is the state of the storage while a
/// relocated element is sifting down from position `j`.
spec fn heap_except_children_of<T, C: Comparator<T>>(c: C, s: Seq<T>, j: int) -> bool {
    forall|i: int| 1 <= i < s.len() && parent_index(i) != j ==> #[trigger] parent_link_ok(c, s, i)
}

/// Node `i` does not outrank its grandparent.
spec fn grandparent_link_ok<T, C: Comparator<T>>(c: C, s: Seq<T>, i: int) -> bool {
    !c.outranks(s[i], s[parent_index(parent_index(i))])
}

/// The children of the sifting node `j` do not outrank `j`'s parent: the edge
/// that skips over `j` is in order, so a swap across `j` cannot break the
/// links below it.
spec fn bridge<T, C: Comparator<T>>(c: C, s: Seq<T>, j: int) -> bool {
    forall|k: int|
        1 <= k < s.len() && parent_index(k) == j ==> #[trigger] grandparent_link_ok(c, s, k)
}

/// Basic arithmetic of the implicit tree: the parent sits strictly below its
/// child's index, and every node is the left or the right child of its parent.
proof fn lemma_parent_index_facts(k: int)
    requires
        1 <= k,
    ensures
        0 <= parent_index(k) < k,
        k == 2 * parent_index(k) + 1 || k == 2 * parent_index(k) + 2,
{
}

/// Exchanging two elements of a sequence leaves its multiset unchanged.
proof fn lemma_swap_multiset<T>(s: Seq<T>, i: int, j: int)
    requires
        0 <= i < s.len(),
        0 <= j < s.len(),
        i != j,
    ensures
        swap_seq(s, i, j).to_multiset() == s.to_multiset(),
{
    broadcast use vstd::seq_lib::group_to_multiset_ensures;

    let s1 = s.update(i, s[j]);
    assert(s.contains(s[i]));
    assert(s.contains(s[j]));
    assert(s1[j] == s[j]);
    assert(swap_seq(s, i, j).to_multiset() =~= s.to_multiset());
}

/// One step of sift-up: if the sifting node `j` outranks its parent, swapping
/// the two moves the exception one level up and keeps everything else in
/// order.
proof fn lemma_sift_up_step<T, C: Comparator<T>>(c: C, s: Seq<T>, j: int)
    requires
        consistent(c),
        1 <= j < s.len(),
        heap_except_node(c, s, j),
        bridge(c, s, j),
        c.outranks(s[j], s[parent_index(j)]),
    ensures
        heap_except_node(c, swap_seq(s, parent_index(j), j), parent_index(j)),
        parent_index(j) >= 1 ==> bridge(c, swap_seq(s, parent_index(j), j), parent_index(j)),
{
    let p = parent_index(j);
    let t = swap_seq(s, p, j);
    lemma_parent_index_facts(j);
    assert forall|i: int| 1 <= i < t.len() && i != p implies #[trigger] parent_link_ok(
        c,
        t,
        i,
    ) by {
        let pi = parent_index(i);
        lemma_parent_index_facts(i);
        if i == j {
            // The sifted element moved to `p`; its old parent moved to `j` and
            // by asymmetry it does not outrank the element above it.
            assert(c.outranks(s[j], s[p]));
            assert(!c.outranks(s[p], s[j]));
        } else if pi == p {
            // A sibling of `j`: its new parent is the sifted element. If the
            // sibling outranked it, transitivity would make the sibling
            // outrank the old parent, against the heap property.
            assert(parent_link_ok(c, s, i));
            if c.outranks(s[i], s[j]) {
                lemma_consistent_transitive(c, s[i], s[j], s[p]);
            }
        } else if pi == j {
            // A child of `j`: its new parent is `j`'s old parent, and the
            // bridge says the child does not outrank it.
            assert(grandparent_link_ok(c, s, i));
        } else {
            assert(parent_link_ok(c, s, i));
        }
    }
    if p >= 1 {
        let g = parent_index(p);
        lemma_parent_index_facts(p);
        assert forall|k: int| 1 <= k < t.len() && parent_index(k) == p implies #[trigger]
        grandparent_link_ok(c, t, k) by {
            lemma_parent_index_facts(k);
            if k == j {
                // The old parent of `j` keeps its own parent link.
                assert(parent_link_ok(c, s, p));
            } else {
                // A sibling of `j` against its grandparent, by negative
                // transitivity through the old parent.
                assert(parent_link_ok(c, s, k));
                assert(parent_link_ok(c, s, p));
                assert(!c.outranks(s[k], s[p]));
                assert(!c.outranks(s[p], s[g]));
            }
        }
    }
}

/// One step of sift-down: if the winning child `m` outranks the sifting node
/// `j`, swapping the two moves the exception one level down and keeps
/// everything else in order.
proof fn lemma_sift_down_step<T, C: Comparator<T>>(c: C, s: Seq<T>, j: int, m: int)
    requires
        consistent(c),
        0 <= j < m < s.len(),
        parent_index(m) == j,
        heap_except_children_of(c, s, j),
        j >= 1 ==> bridge(c, s, j),
        c.outranks(s[m], s[j]),
        forall|k: int|
            1 <= k < s.len() && parent_index(k) == j && k != m ==> !c.outranks(
                #[trigger] s[k],
                s[m],
            ),
    ensures
        heap_except_children_of(c, swap_seq(s, j, m), m),
        bridge(c, swap_seq(s, j, m), m),
{
    let t = swap_seq(s, j, m);
    lemma_parent_index_facts(m);
    assert forall|i: int| 1 <= i < t.len() && parent_index(i) != m implies #[trigger]
    parent_link_ok(c, t, i) by {
        let pi = parent_index(i);
        lemma_parent_index_facts(i);
        if i == j {
            // The winning child moved up to `j`; the bridge says it does not
            // outrank `j`'s parent.
            assert(grandparent_link_ok(c, s, m));
        } else if i == m {
            // The sifted element moved down to `m`; by asymmetry it does not
            // outrank the child that overtook it.
            assert(c.outranks(s[m], s[j]));
            assert(!c.outranks(s[j], s[m]));
        } else if pi == j {
            // The losing sibling: its new parent is the winning child, which
            // it does not outrank by the choice of the winner.
            assert(!c.outranks(s[i], s[m]));
        } else {
            assert(parent_link_ok(c, s, i));
        }
    }
    assert forall|k: int| 1 <= k < t.len() && parent_index(k) == m implies #[trigger]
    grandparent_link_ok(c, t, k) by {
        lemma_parent_index_facts(k);
        // A child of `m` against its grandparent's slot, which now holds the
        // element that was its parent before the swap.
        assert(parent_link_ok(c, s, k));
    }
}

/// In a heap-ordered sequence with a consistent comparator, no element
/// outranks the root: the chain of parent links composes by negative
/// transitivity, and asymmetry gives irreflexivity at the root itself.
proof fn lemma_no_node_outranks_root<T, C: Comparator<T>>(c: C, s: Seq<T>, i: int)
    requires
        consistent(c),
        heap_ordered(c, s),
        0 <= i < s.len(),
    ensures
        !c.outranks(s[i], s[0]),
    decreases i,
{
    if i == 0 {
        if c.outranks(s[0], s[0]) {
            assert(!c.outranks(s[0], s[0]));
        }
    } else {
        let p = parent_index(i);
        lemma_parent_index_facts(i);
        lemma_no_node_outranks_root(c, s, p);
        assert(parent_link_ok(c, s, i));
        assert(!c.outranks(s[i], s[p]));
        assert(!c.outranks(s[p], s[0]));
    }
}

/// A binary heap over elements of type `T`, ordered by a comparator of type
/// `C`. Whether it behaves as a min-heap or a max-heap depends only on the
/// comparator installed at construction.
pub struct Heap<T, C: Comparator<T>> {
    count: usize,
    items: Vec<T>,
    comparator: C,
}

impl<T, C: Comparator<T>> View for Heap<T, C> {
    type V = Seq<T>;

    closed spec fn view(&self) -> Seq<T> {
        self.items@
    }
}

impl<T, C: Comparator<T>> Heap<T, C> {
    /// The comparison strategy this heap was constructed with.
    pub closed spec fn ordering(&self) -> C {
        self.comparator
    }

    /// Well-formedness: the element count matches the storage, the comparator
    /// is consistent, and the heap property holds.
    pub closed spec fn wf(&self) -> bool {
        &&& self.count == self.items@.len()
        &&& consistent::<T, C>(self.comparator)
        &&& heap_ordered(self.comparator, self.items@)
    }

    /// A well-formed heap satisfies the heap property: no element outranks
    /// its parent in the implicit tree, and the comparator is consistent.
    pub proof fn lemma_wf_heap_ordered(&self)
        requires
            self.wf(),
        ensures
            heap_ordered(self.ordering(), self@),
            consistent::<T, C>(self.ordering()),
    {
    }

    /// Sortedness of drains: in a well-formed, non-empty heap no element
    /// outranks the root. Since `pop` returns the root and leaves the
    /// remaining elements in place, repeatedly popping until empty yields the
    /// elements in an order in which no element outranks a predecessor.
    pub proof fn lemma_root_extremal(&self)
        requires
            self.wf(),
            self@.len() > 0,
        ensures
            forall|i: int|
                0 <= i < self@.len() ==> !self.ordering().outranks(#[trigger] self@[i], self@[0]),
    {
        assert forall|i: int| 0 <= i < self@.len() implies !self.ordering().outranks(
            #[trigger] self@[i],
            self@[0],
        ) by {
            lemma_no_node_outranks_root(self.comparator, self.items@, i);
        }
    }

    /// An empty heap with the given comparison strategy.
    pub fn new(comparator: C) -> (h: Self)
        requires
            consistent::<T, C>(comparator),
        ensures
            h.wf(),
            h@ == Seq::<T>::empty(),
            h.ordering() == comparator,
    {
        Heap { count: 0, items: Vec::new(), comparator }
    }

    /// The number of elements currently stored.
    pub fn len(&self) -> (n: usize)
        requires
            self.wf(),
        ensures
            n == self@.len(),
    {
        self.count
    }

    /// True exactly when the heap holds no elements.
    pub fn is_empty(&self) -> (b: bool)
        requires
            self.wf(),
        ensures
            b == (self@.len() == 0),
    {
        self.len() == 0
    }
}

impl<T: Copy, C: Comparator<T>> Heap<T, C> {
    /// The storage index of the parent of node `idx`.
    fn parent_idx(&self, idx: usize) -> (r: usize)
        requires
            1 <= idx,
        ensures
            r == parent_index(idx as int),
    {
        (idx - 1) / 2
    }

    /// True when node `idx` has at least one child among the live elements.
    fn children_present(&self, idx: usize) -> (b: bool)
        requires
            self.count == self@.len(),
        ensures
            b <==> 2 * (idx as int) + 1 < self@.len(),
    {
        idx < self.count / 2
    }

    /// The storage index of the left child of node `idx`.
    fn left_child_idx(&self, idx: usize) -> (r: usize)
        requires
            self.count == self@.len(),
            2 * (idx as int) + 1 < self@.len(),
        ensures
            r == 2 * (idx as int) + 1,
    {
        2 * idx + 1
    }

    /// The storage index of the right child of node `idx`; it may be one past
    /// the last live element when only the left child exists.
    fn right_child_idx(&self, idx: usize) -> (r: usize)
        requires
            self.count == self@.len(),
            2 * (idx as int) + 1 < self@.len(),
        ensures
            r == 2 * (idx as int) + 2,
    {
        2 * idx + 2
    }

    /// Exchanges the elements at positions `i` and `j`.
    fn swap_items(&mut self, i: usize, j: usize)
        requires
            i < old(self)@.len(),
            j < old(self)@.len(),
            i != j,
        ensures
            final(self)@ == swap_seq(old(self)@, i as int, j as int),
            final(self)@.len() == old(self)@.len(),
            final(self)@.to_multiset() == old(self)@.to_multiset(),
            final(self).count == old(self).count,
            final(self).ordering() == old(self).ordering(),
    {
        let a = self.items[i];
        let b = self.items[j];
        self.items.set(i, b);
        self.items.set(j, a);
        proof {
            lemma_swap_multiset(old(self)@, i as int, j as int);
        }
    }

    /// Decides whether the sift-down at node `idx` must take another step:
    /// returns `(true, m)` when the winning child `m` (the child that outranks
    /// its sibling, or the only child) outranks node `idx`, and `(false, 0)`
    /// when every child of `idx` is already in order.
    fn down(&self, idx: usize) -> (r: (bool, usize))
        requires
            self.count == self@.len(),
            consistent::<T, C>(self.ordering()),
            idx < self@.len(),
        ensures
            !r.0 ==> forall|k: int|
                1 <= k < self@.len() && parent_index(k) == idx as int ==> !self.ordering().outranks(
                    #[trigger] self@[k],
                    self@[idx as int],
                ),
            r.0 ==> {
                &&& idx < r.1 < self@.len()
                &&& parent_index(r.1 as int) == idx as int
                &&& self.ordering().outranks(self@[r.1 as int], self@[idx as int])
                &&& forall|k: int|
                    1 <= k < self@.len() && parent_index(k) == idx as int && k != r.1
                        ==> !self.ordering().outranks(#[trigger] self@[k], self@[r.1 as int])
            },
    {
        let ghost c = self.comparator;
        let ghost s = self@;
        if !self.children_present(idx) {
            proof {
                assert forall|k: int|
                    1 <= k < s.len() && parent_index(k) == idx as int implies !c.outranks(
                    #[trigger] s[k],
                    s[idx as int],
                ) by {
                    lemma_parent_index_facts(k);
                }
            }
            return (false, 0);
        }
        let l: usize = self.left_child_idx(idx);
        let rt: usize = self.right_child_idx(idx);
        let mut target: usize = l;
        if rt < self.count {
            let xv = self.items[rt];
            let yv = self.items[l];
            if self.comparator.higher_priority(&xv, &yv) {
                target = rt;
            }
        }
        proof {
            assert(target == l || target == rt);
            assert(target == rt ==> c.outranks(s[rt as int], s[l as int]));
            assert(target == l && (rt as int) < s.len() ==> !c.outranks(s[rt as int], s[l as int]));
        }
        let tv = self.items[target];
        let cv = self.items[idx];
        if self.comparator.higher_priority(&tv, &cv) {
            proof {
                assert forall|k: int|
                    1 <= k < s.len() && parent_index(k) == idx as int && k != target
                        as int implies !c.outranks(#[trigger] s[k], s[target as int]) by {
                    lemma_parent_index_facts(k);
                    if target == rt {
                        // The left child lost the comparison; by asymmetry it
                        // does not outrank the right child.
                        assert(c.outranks(s[rt as int], s[l as int]));
                        assert(!c.outranks(s[l as int], s[rt as int]));
                    }
                }
            }
            (true, target)
        } else {
            proof {
                assert forall|k: int|
                    1 <= k < s.len() && parent_index(k) == idx as int implies !c.outranks(
                    #[trigger] s[k],
                    s[idx as int],
                ) by {
                    lemma_parent_index_facts(k);
                    if k != target as int {
                        if target == l {
                            // The right child does not outrank the left child,
                            // which does not outrank the node: negative
                            // transitivity closes the chain.
                            assert(!c.outranks(s[rt as int], s[l as int]));
                        } else {
                            // If the left child outranked the node, the right
                            // child would outrank it too, by transitivity,
                            // against the failed comparison.
                            if c.outranks(s[k], s[idx as int]) {
                                lemma_consistent_transitive(
                                    c,
                                    s[rt as int],
                                    s[l as int],
                                    s[idx as int],
                                );
                            }
                        }
                    }
                }
            }
            (false, 0)
        }
    }

    /// Inserts `value`, then restores the heap property by sifting it up:
    /// while the new element outranks its parent, the two trade places.
    pub fn add(&mut self, value: T)
        requires
            old(self).wf(),
        ensures
            final(self).wf(),
            final(self).ordering() == old(self).ordering(),
            final(self)@.len() == old(self)@.len() + 1,
            final(self)@.to_multiset() == old(self)@.to_multiset().insert(value),
    {
        let ghost orig = self@;
        let ghost c = self.comparator;
        self.items.push(value);
        self.count = self.items.len();
        proof {
            vstd::seq_lib::to_multiset_build(orig, value);
            assert forall|i: int|
                1 <= i < self@.len() && i != orig.len() as int implies #[trigger] parent_link_ok(
                c,
                self@,
                i,
            ) by {
                lemma_parent_index_facts(i);
                assert(parent_link_ok(c, orig, i));
            }
            assert forall|k: int|
                1 <= k < self@.len() && parent_index(k) == orig.len() as int implies #[trigger]
            grandparent_link_ok(c, self@, k) by {
                lemma_parent_index_facts(k);
            }
        }
        let mut id: usize = self.count - 1;
        while id >= 1
            invariant
                self.comparator == c,
                consistent::<T, C>(c),
                self.count == self@.len(),
                self@.len() == orig.len() + 1,
                id < self@.len(),
                heap_except_node(c, self@, id as int),
                id >= 1 ==> bridge(c, self@, id as int),
                self@.to_multiset() == orig.to_multiset().insert(value),
            ensures
                self.comparator == c,
                self.count == self@.len(),
                self@.len() == orig.len() + 1,
                heap_ordered(c, self@),
                self@.to_multiset() == orig.to_multiset().insert(value),
            decreases id,
        {
            let pa: usize = self.parent_idx(id);
            let x = self.items[id];
            let y = self.items[pa];
            if self.comparator.higher_priority(&x, &y) {
                proof {
                    lemma_sift_up_step(c, self@, id as int);
                }
                self.swap_items(pa, id);
                id = pa;
            } else {
                proof {
                    assert(parent_link_ok(c, self@, id as int));
                }
                break;
            }
        }
    }

    /// Removes and returns the root, the element of highest priority, or
    /// nothing when the heap is empty. The last element moves into the root
    /// slot and sifts down until no child outranks it.
    pub fn pop(&mut self) -> (r: Option<T>)
        requires
            old(self).wf(),
        ensures
            final(self).wf(),
            final(self).ordering() == old(self).ordering(),
            old(self)@.len() == 0 ==> r is None && *final(self) == *old(self),
            old(self)@.len() > 0 ==> {
                &&& r == Some(old(self)@[0])
                &&& final(self)@.len() == old(self)@.len() - 1
                &&& final(self)@.to_multiset() == old(self)@.to_multiset().remove(old(self)@[0])
                &&& forall|i: int|
                    0 <= i < old(self)@.len() ==> !old(self).ordering().outranks(
                        #[trigger] old(self)@[i],
                        old(self)@[0],
                    )
                &&& forall|i: int|
                    0 <= i < final(self)@.len() ==> !old(self).ordering().outranks(
                        #[trigger] final(self)@[i],
                        old(self)@[0],
                    )
            },
    {
        let ghost orig = self@;
        let ghost c = self.comparator;
        if self.count == 0 {
            return None;
        }
        proof {
            assert forall|i: int| 0 <= i < orig.len() implies !c.outranks(
                #[trigger] orig[i],
                orig[0],
            ) by {
                lemma_no_node_outranks_root(c, orig, i);
            }
        }
        let res = self.items[0];
        if self.count == 1 {
            let _ = self.items.pop();
            self.count = 0;
            proof {
                broadcast use vstd::seq_lib::group_to_multiset_ensures;

                assert(orig =~= Seq::<T>::empty().push(res));
                assert(self@.to_multiset() =~= orig.to_multiset().remove(res));
            }
            return Some(res);
        }
        let last = self.items.pop().unwrap();
        self.items.set(0, last);
        self.count = self.count - 1;
        let ghost sub = orig.subrange(0, orig.len() - 1);
        let ghost target_ms = orig.to_multiset().remove(orig[0]);
        let ghost new_len = orig.len() - 1;
        proof {
            broadcast use vstd::seq_lib::group_to_multiset_ensures;

            assert(self@ == sub.update(0, last));
            assert(orig =~= sub.push(last));
            assert(sub[0] == res);
            assert(self@.to_multiset() == target_ms);
            assert forall|i: int|
                1 <= i < self@.len() && parent_index(i) != 0 implies #[trigger] parent_link_ok(
                c,
                self@,
                i,
            ) by {
                lemma_parent_index_facts(i);
                assert(parent_link_ok(c, orig, i));
            }
        }
        let mut id: usize = 0;
        loop
            invariant
                self.comparator == c,
                consistent::<T, C>(c),
                self.count == self@.len(),
                self@.len() == new_len,
                id < self@.len(),
                heap_except_children_of(c, self@, id as int),
                id >= 1 ==> bridge(c, self@, id as int),
                self@.to_multiset() == target_ms,
                forall|i: int| 0 <= i < self@.len() ==> !c.outranks(#[trigger] self@[i], orig[0]),
            ensures
                self.comparator == c,
                self.count == self@.len(),
                self@.len() == new_len,
                heap_ordered(c, self@),
                self@.to_multiset() == target_ms,
                forall|i: int| 0 <= i < self@.len() ==> !c.outranks(#[trigger] self@[i], orig[0]),
            decreases self@.len() - id,
        {
            let step = self.down(id);
            if !step.0 {
                proof {
                    assert forall|i: int| 1 <= i < self@.len() implies #[trigger] parent_link_ok(
                        c,
                        self@,
                        i,
                    ) by {
                        if parent_index(i) == id as int {
                            assert(!c.outranks(self@[i], self@[id as int]));
                        }
                    }
                }
                break;
            }
            let target: usize = step.1;
            let ghost before = self@;
            proof {
                lemma_sift_down_step(c, before, id as int, target as int);
            }
            self.swap_items(id, target);
            proof {
                assert forall|i: int| 0 <= i < self@.len() implies !c.outranks(
                    #[trigger] self@[i],
                    orig[0],
                ) by {
                    if i == id as int {
                        assert(self@[i] == before[target as int]);
                    } else if i == target as int {
                        assert(self@[i] == before[id as int]);
                    } else {
                        assert(self@[i] == before[i]);
                    }
                }
            }
            id = target;
        }
        Some(res)
    }

    /// One step of the draining iteration: exactly one `pop`. The sequence of
    /// `next` calls yields the elements in priority order and ends, returning
    /// nothing, once the heap is empty.
    pub fn next(&mut self) -> (r: Option<T>)
        requires
            old(self).wf(),
        ensures
            final(self).wf(),
            final(self).ordering() == old(self).ordering(),
            old(self)@.len() == 0 ==> r is None && *final(self) == *old(self),
            old(self)@.len() > 0 ==> {
                &&& r == Some(old(self)@[0])
                &&& final(self)@.len() == old(self)@.len() - 1
                &&& final(self)@.to_multiset() == old(self)@.to_multiset().remove(old(self)@[0])
                &&& forall|i: int|
                    0 <= i < final(self)@.len() ==> !old(self).ordering().outranks(
                        #[trigger] final(self)@[i],
                        old(self)@[0],
                    )
            },
    {
        if self.count == 0 {
            return None;
        }
        self.pop()
    }
}

impl<T: StrictOrdered> Heap<T, MinOrder> {
    /// An empty min-heap: smaller elements are popped first.
    pub fn new_min() -> (h: Self)
        ensures
            h.wf(),
            h@ == Seq::<T>::empty(),
            h.ordering() == MinOrder,
    {
        proof {
            lemma_min_order_consistent::<T>();
        }
        Heap::new(MinOrder)
    }
}

impl<T: StrictOrdered> Heap<T, MaxOrder> {
    /// An empty max-heap: larger elements are popped first.
    pub fn new_max() -> (h: Self)
        ensures
            h.wf(),
            h@ == Seq::<T>::empty(),
            h.ordering() == MaxOrder,
    {
        proof {
            lemma_max_order_consistent::<T>();
        }
        Heap::new(MaxOrder)
    }
}

/// Factory for min-heaps over strictly ordered element types.
pub struct MinHeap;

impl MinHeap {
    /// An empty min-heap: smaller elements are popped first.
    pub fn new<T: StrictOrdered>() -> (h: Heap<T, MinOrder>)
        ensures
            h.wf(),
            h@ == Seq::<T>::empty(),
            h.ordering() == MinOrder,
    {
        Heap::new_min()
    }
}

/// Factory for max-heaps over strictly ordered element types.
pub struct MaxHeap;

impl MaxHeap {
    /// An empty max-heap: larger elements are popped first.
    pub fn new<T: StrictOrdered>() -> (h: Heap<T, MaxOrder>)
        ensures
            h.wf(),
            h@ == Seq::<T>::empty(),
            h.ordering() == MaxOrder,
    {
        Heap::new_max()
    }
}

} // verus!
