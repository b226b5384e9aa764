//! Disjoint sets of positions.
use vstd::prelude::*;

verus! {

/// A partition of the positions `0..len` into sets, each with one position as its root.
pub struct UnionFind {
    /// The next position on the way to the root; a root points to itself.
    pub parent: Vec<usize>,
    /// How far a position is from its root, at most.
    pub height: Ghost<Seq<nat>>,
}

impl UnionFind {
    /// Every way leads to a root inside the range.
    pub open spec fn wf(&self) -> bool {
        &&& self.height@.len() == self.parent@.len()
        &&& forall|v: int|
            #![trigger self.parent@[v]]
            0 <= v < self.parent@.len() ==> {
                &&& self.parent@[v] < self.parent@.len()
                &&& self.parent@[v] != v ==> self.height@[self.parent@[v] as int]
                    < self.height@[v]
            }
    }

    /// The number of positions.
    pub open spec fn size(&self) -> int {
        self.parent@.len() as int
    }

    /// The root of the set that holds `v`.
    pub open spec fn root(&self, v: int) -> int
        decreases self.height@[v],
        when self.wf() && 0 <= v < self.size()
    {
        if self.parent@[v] == v {
            v
        } else {
            self.root(self.parent@[v] as int)
        }
    }

    /// A root is a position of the range and its own root.
    pub proof fn lemma_root(&self, v: int)
        requires
            self.wf(),
            0 <= v < self.size(),
        ensures
            0 <= self.root(v) < self.size(),
            self.parent@[self.root(v)] == self.root(v),
            self.root(self.root(v)) == self.root(v),
            self.height@[self.root(v)] <= self.height@[v],
            self.root(v) != v ==> self.height@[self.root(v)] < self.height@[v],
        decreases self.height@[v],
    {
        if self.parent@[v] != v {
            self.lemma_root(self.parent@[v] as int);
        }
    }

    /// Pointing a position straight at its root changes no root.
    proof fn lemma_shortcut(&self, other: &UnionFind, v: int, x: int)
        requires
            self.wf(),
            other.wf(),
            0 <= v < self.size(),
            0 <= x < self.size(),
            other.height@ == self.height@,
            other.parent@ == self.parent@.update(v, self.root(v) as usize),
        ensures
            other.root(x) == self.root(x),
        decreases self.height@[x],
    {
        self.lemma_root(v);
        if x == v {
            if self.root(v) != v {
                self.lemma_shortcut(other, v, self.root(v));
            }
        } else if self.parent@[x] != x {
            self.lemma_shortcut(other, v, self.parent@[x] as int);
        }
    }

    /// Each position in a set of its own.
    pub fn new(size: usize) -> (r: UnionFind)
        ensures
            r.wf(),
            r.size() == size,
            forall|v: int| 0 <= v < size ==> #[trigger] r.root(v) == v,
    {
        let mut parent: Vec<usize> = Vec::new();
        let mut i: usize = 0;
        while i < size
            invariant
                i <= size,
                parent@.len() == i,
                forall|v: int| 0 <= v < i ==> #[trigger] parent@[v] == v,
            decreases size - i,
        {
            parent.push(i);
            i += 1;
        }
        UnionFind { parent, height: Ghost(Seq::new(size as nat, |i: int| 0)) }
    }

    /// The root of the set that holds `value`; the ways passed on are shortened.
    pub fn find(&mut self, value: usize) -> (r: usize)
        requires
            old(self).wf(),
            value < old(self).size(),
        ensures
            final(self).wf(),
            final(self).size() == old(self).size(),
            r == old(self).root(value as int),
            r < old(self).size(),
            final(self).height@ == old(self).height@,
            forall|v: int|
                0 <= v < old(self).size() ==> #[trigger] final(self).root(v) == old(self).root(v),
        decreases old(self).height@[value as int],
    {
        let next: usize = self.parent[value];
        proof {
            self.lemma_root(value as int);
        }
        if next != value {
            let ghost start = *self;
            let root: usize = self.find(next);
            let ghost mid = *self;
            proof {
                mid.lemma_root(value as int);
                assert(mid.root(value as int) == start.root(value as int));
            }
            self.parent.set(value, root);
            assert(self.wf()) by {
                assert(self.height@[root as int] <= mid.height@[value as int]);
            }
            proof {
                assert forall|v: int| 0 <= v < start.size() implies #[trigger] self.root(v)
                    == start.root(v) by {
                    mid.lemma_shortcut(&*self, value as int, v);
                }
            }
            root
        } else {
            value
        }
    }

    /// Joins the sets of `left` and `right`; the root of `left` is the root of both.
    pub fn union(&mut self, left: usize, right: usize)
        requires
            old(self).wf(),
            left < old(self).size(),
            right < old(self).size(),
        ensures
            final(self).wf(),
            final(self).size() == old(self).size(),
            forall|v: int|
                0 <= v < old(self).size() ==> #[trigger] final(self).root(v) == (if old(self).root(
                    v,
                ) == old(self).root(right as int) {
                    old(self).root(left as int)
                } else {
                    old(self).root(v)
                }),
    {
        let ghost start = *self;
        let left_root: usize = self.find(left);
        let right_root: usize = self.find(right);
        let ghost mid = *self;
        proof {
            start.lemma_root(left as int);
            start.lemma_root(right as int);
            mid.lemma_root(left as int);
            mid.lemma_root(right as int);
            assert(mid.root(left as int) == left_root);
            assert(mid.root(right as int) == right_root);
        }
        if left_root != right_root {
            let ghost step: nat = mid.height@[left_root as int] + 1;
            let ghost heights = Seq::new(
                mid.height@.len(),
                |v: int|
                    if mid.root(v) == right_root {
                        mid.height@[v] + step
                    } else {
                        mid.height@[v]
                    },
            );
            self.parent.set(right_root, left_root);
            self.height = Ghost(heights);
            assert(self.wf()) by {
                assert forall|v: int| 0 <= v < self.parent@.len() implies {
                    &&& (#[trigger] self.parent@[v]) < self.parent@.len()
                    &&& self.parent@[v] != v ==> self.height@[self.parent@[v] as int]
                        < self.height@[v]
                } by {
                    mid.lemma_root(v);
                    assert(mid.parent@[v] < mid.parent@.len());
                    if v == right_root {
                        assert(mid.root(left_root as int) == left_root);
                    } else {
                        assert(mid.root(mid.parent@[v] as int) == mid.root(v));
                    }
                }
            }
            proof {
                assert forall|v: int| 0 <= v < start.size() implies #[trigger] self.root(v) == (
                if start.root(v) == start.root(right as int) {
                    start.root(left as int)
                } else {
                    start.root(v)
                }) by {
                    mid.lemma_join(&*self, left_root as int, right_root as int, v);
                    assert(mid.root(v) == start.root(v));
                }
            }
        } else {
            proof {
                assert forall|v: int| 0 <= v < start.size() implies #[trigger] self.root(v) == (
                if start.root(v) == start.root(right as int) {
                    start.root(left as int)
                } else {
                    start.root(v)
                }) by {
                    assert(mid.root(v) == start.root(v));
                }
            }
        }
    }

    /// Pointing one root at another one moves its set to the other root.
    proof fn lemma_join(&self, other: &UnionFind, left_root: int, right_root: int, v: int)
        requires
            self.wf(),
            other.wf(),
            0 <= left_root < self.size(),
            0 <= right_root < self.size(),
            left_root != right_root,
            self.parent@[left_root] == left_root,
            self.parent@[right_root] == right_root,
            other.parent@ == self.parent@.update(right_root, left_root as usize),
            0 <= v < self.size(),
        ensures
            other.root(v) == (if self.root(v) == right_root {
                left_root
            } else {
                self.root(v)
            }),
        decreases self.height@[v],
    {
        if v == right_root {
            assert(other.parent@[left_root] == left_root);
            assert(other.root(left_root) == left_root);
        } else if self.parent@[v] != v {
            self.lemma_join(other, left_root, right_root, self.parent@[v] as int);
        }
    }
}

} // verus!
