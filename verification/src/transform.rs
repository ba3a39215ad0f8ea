use vstd::prelude::*;
use std::collections::HashMap;
use crate::scalar::Scalar;
use crate::matrix::Mat4;

verus! {

broadcast use vstd::std_specs::hash::group_hash_axioms;

/// One spatial node: its transform relative to its parent, the handle of
/// that parent, and the world transform as it was last computed.
#[derive(Clone, Copy)]
pub struct GltfTransform<S: Scalar> {
    local: Mat4<S>,
    parent: Option<usize>,
    world: Mat4<S>,
    dirty: bool,
}

/// The tree of spatial nodes of one model. Nodes live in an arena and are
/// named by handles; handle 0 is the root. Source indices of the asset map
/// to handles.
pub struct GltfTransformHierarchy<S: Scalar> {
    nodes: Vec<GltfTransform<S>>,
    by_index: HashMap<usize, usize>,
}

/// What a hierarchy holds, apart from its caches.
pub ghost struct HierarchyView<S: Scalar> {
    /// The local transform of each handle.
    pub locals: Seq<Mat4<S>>,
    /// The parent of each handle; only the root has none.
    pub parents: Seq<Option<usize>>,
    /// The handle registered under each source index.
    pub index: Map<usize, usize>,
}

impl<S: Scalar> HierarchyView<S> {
    /// A single-rooted tree in which parents precede their children, with
    /// an injective index whose handles all exist.
    pub open spec fn wf(self) -> bool {
        &&& self.locals.len() == self.parents.len()
        &&& self.locals.len() >= 1
        &&& self.parents[0] is None
        &&& forall|h: int|
            0 < h < self.parents.len() ==> (#[trigger] self.parents[h]) is Some
                && self.parents[h].unwrap() < h
        &&& forall|k: usize| #[trigger]
            self.index.contains_key(k) ==> 0 < self.index[k] < self.locals.len()
        &&& forall|k1: usize, k2: usize|
            #[trigger] self.index.contains_key(k1) && #[trigger] self.index.contains_key(k2) && k1
                != k2 ==> self.index[k1] != self.index[k2]
    }

    /// Whether `h` has a parent that precedes it.
    pub open spec fn has_parent(self, h: int) -> bool {
        0 < h < self.parents.len() && self.parents[h] is Some && self.parents[h].unwrap() < h
    }

    /// The world transform of `h`: the root's local transform for the root,
    /// else the parent's world transform times the node's local transform.
    pub open spec fn world(self, h: int) -> Mat4<S>
        decreases h,
    {
        if self.has_parent(h) {
            self.world(self.parents[h].unwrap() as int).product(self.locals[h])
        } else {
            self.locals[h]
        }
    }

    /// Whether `h` is `n` or lies below it.
    pub open spec fn is_descendant(self, h: int, n: int) -> bool
        decreases h,
    {
        h == n || (self.has_parent(h) && self.is_descendant(self.parents[h].unwrap() as int, n))
    }

    /// The same tree with `m` as the local transform of `h`.
    pub open spec fn with_local(self, h: int, m: Mat4<S>) -> HierarchyView<S> {
        HierarchyView { locals: self.locals.update(h, m), parents: self.parents, index: self.index }
    }
}

impl<S: Scalar> View for GltfTransformHierarchy<S> {
    type V = HierarchyView<S>;

    closed spec fn view(&self) -> HierarchyView<S> {
        HierarchyView {
            locals: Seq::new(self.nodes@.len(), |i: int| self.nodes@[i].local),
            parents: Seq::new(self.nodes@.len(), |i: int| self.nodes@[i].parent),
            index: self.by_index@,
        }
    }
}

impl<S: Scalar> GltfTransformHierarchy<S> {
    /// For each handle, whether its cached world transform is stale.
    pub closed spec fn dirty_flags(&self) -> Seq<bool> {
        Seq::new(self.nodes@.len(), |i: int| self.nodes@[i].dirty)
    }

    /// Every cache that is not marked stale holds the node's world
    /// transform, and no fresh cache sits below a stale one.
    pub closed spec fn caches_valid(&self) -> bool {
        forall|h: int|
            0 <= h < self.nodes@.len() && !(#[trigger] self.nodes@[h]).dirty ==> self.nodes@[h].world
                == self@.world(h) && (self@.has_parent(h) ==> !self.nodes@[self.nodes@[h].parent.unwrap() as int].dirty)
    }

    /// The hierarchy's invariant.
    pub open spec fn wf(&self) -> bool {
        &&& self@.wf()
        &&& self.dirty_flags().len() == self@.locals.len()
        &&& self.caches_valid()
    }

    /// A hierarchy of one node, the root, with the unit transform.
    pub fn new() -> (r: Self)
        ensures
            r.wf(),
            r@.locals == seq![Mat4::<S>::identity_value()],
            r@.parents == seq![None::<usize>],
            r@.index == Map::<usize, usize>::empty(),
            r.dirty_flags() == seq![false],
    {
        let id = Mat4::identity();
        let mut nodes: Vec<GltfTransform<S>> = Vec::new();
        nodes.push(GltfTransform { local: id, parent: None, world: id, dirty: false });
        let r = GltfTransformHierarchy { nodes, by_index: HashMap::new() };
        assert(r@.locals =~= seq![Mat4::<S>::identity_value()]);
        assert(r@.parents =~= seq![None::<usize>]);
        assert(r.dirty_flags() =~= seq![false]);
        r
    }

    /// The handle of the root.
    pub fn root(&self) -> (h: usize)
        ensures
            h == 0,
    {
        0
    }

    /// The number of nodes, the root included.
    pub fn len(&self) -> (n: usize)
        ensures
            n == self@.locals.len(),
    {
        self.nodes.len()
    }

    /// Creates a node below `parent` with the local transform `local` and
    /// registers it under the source index `index`, in place of whatever
    /// was registered there. The new node's cache starts stale.
    pub fn add_at_index(&mut self, index: usize, parent: usize, local: Mat4<S>) -> (h: usize)
        requires
            old(self).wf(),
            parent < old(self)@.locals.len(),
        ensures
            final(self).wf(),
            h == old(self)@.locals.len(),
            final(self)@.locals == old(self)@.locals.push(local),
            final(self)@.parents == old(self)@.parents.push(Some(parent)),
            final(self)@.index == old(self)@.index.insert(index, h),
            final(self).dirty_flags() == old(self).dirty_flags().push(true),
    {
        let h = self.nodes.len();
        let ghost before = self@;
        let ghost before_nodes = self.nodes@;
        self.nodes.push(GltfTransform { local, parent: Some(parent), world: local, dirty: true });
        self.by_index.insert(index, h);
        proof {
            assert(self@.locals =~= before.locals.push(local));
            assert(self@.parents =~= before.parents.push(Some(parent)));
            assert(self.dirty_flags() =~= old(self).dirty_flags().push(true));
            assert(self@.index == before.index.insert(index, h));
            assert(self@.wf());
            assert forall|j: int| 0 <= j < self.nodes@.len() && !(#[trigger] self.nodes@[j]).dirty implies self.nodes@[j].world
                == self@.world(j) && (self@.has_parent(j) ==> !self.nodes@[self.nodes@[j].parent.unwrap() as int].dirty) by {
                assert(j < h);
                assert(self.nodes@[j] == before_nodes[j]);
                assert(before.parents[j] == before_nodes[j].parent);
                lemma_world_of_prefix(before, self@, h as int, j);
                if self@.has_parent(j) {
                    let p = before_nodes[j].parent.unwrap() as int;
                    assert(self.nodes@[p] == before_nodes[p]);
                }
            }
        }
        h
    }

    /// The handle registered under a source index, if any.
    pub fn node_by_index(&self, index: usize) -> (r: Option<usize>)
        ensures
            r == (if self@.index.contains_key(index) {
                Some(self@.index[index])
            } else {
                None
            }),
    {
        match self.by_index.get(&index) {
            Some(h) => Some(*h),
            None => None,
        }
    }

    /// The local transform of a node.
    pub fn local_transform(&self, h: usize) -> (r: Mat4<S>)
        requires
            h < self@.locals.len(),
        ensures
            r == self@.locals[h as int],
    {
        self.nodes[h].local
    }

    /// The parent of a node.
    pub fn parent(&self, h: usize) -> (r: Option<usize>)
        requires
            h < self@.locals.len(),
        ensures
            r == self@.parents[h as int],
    {
        self.nodes[h].parent
    }

    /// Whether a node's cached world transform is stale.
    pub fn is_dirty(&self, h: usize) -> (r: bool)
        requires
            h < self@.locals.len(),
        ensures
            r == self.dirty_flags()[h as int],
    {
        self.nodes[h].dirty
    }

    /// Gives node `h` the local transform `local` and marks the caches of
    /// `h` and of everything below it stale.
    pub fn set_local_transform(&mut self, h: usize, local: Mat4<S>)
        requires
            old(self).wf(),
            h < old(self)@.locals.len(),
        ensures
            final(self).wf(),
            final(self)@ == old(self)@.with_local(h as int, local),
            final(self).dirty_flags() == Seq::new(
                old(self)@.locals.len(),
                |j: int| old(self).dirty_flags()[j] || old(self)@.is_descendant(j, h as int),
            ),
    {
        let n = self.nodes.len();
        let ghost before = self@;
        let ghost before_nodes = self.nodes@;
        let mut hit: Vec<bool> = Vec::new();
        let mut i: usize = 0;
        while i < n
            invariant
                i <= n,
                n == self.nodes@.len(),
                n == before_nodes.len(),
                h < n,
                before == old(self)@,
                before_nodes == old(self).nodes@,
                self.by_index == old(self).by_index,
                before.wf(),
                hit@.len() == i,
                forall|j: int| 0 <= j < i ==> #[trigger] hit@[j] == before.is_descendant(j, h as int),
                forall|j: int|
                    0 <= j < n ==> (#[trigger] self.nodes@[j]).parent == before_nodes[j].parent
                        && self.nodes@[j].world == before_nodes[j].world && self.nodes@[j].local == (if j
                        == h && j < i {
                        local
                    } else {
                        before_nodes[j].local
                    }) && self.nodes@[j].dirty == (before_nodes[j].dirty || (j < i
                        && before.is_descendant(j, h as int))),
            decreases n - i,
        {
            let node = self.nodes[i];
            let below = if i == h {
                true
            } else {
                match node.parent {
                    Some(p) => p < i && hit[p],
                    None => false,
                }
            };
            proof {
                assert(before.parents[i as int] == before_nodes[i as int].parent);
                if i > 0 {
                    assert(before.has_parent(i as int));
                }
            }
            if below {
                let fresh = GltfTransform {
                    local: if i == h { local } else { node.local },
                    parent: node.parent,
                    world: node.world,
                    dirty: true,
                };
                self.nodes.set(i, fresh);
            }
            hit.push(below);
            i = i + 1;
        }
        proof {
            assert(self@.locals =~= before.locals.update(h as int, local));
            assert(self@.parents =~= before.parents);
            assert(self.dirty_flags() =~= Seq::new(
                old(self)@.locals.len(),
                |j: int| old(self).dirty_flags()[j] || old(self)@.is_descendant(j, h as int),
            ));
            assert(self@ == before.with_local(h as int, local));
            assert(self@.wf());
            assert forall|j: int| 0 <= j < self.nodes@.len() && !(#[trigger] self.nodes@[j]).dirty implies self.nodes@[j].world
                == self@.world(j) && (self@.has_parent(j) ==> !self.nodes@[self.nodes@[j].parent.unwrap() as int].dirty) by {
                assert(!before_nodes[j].dirty);
                assert(before_nodes[j].world == before.world(j));
                assert(!before.is_descendant(j, h as int));
                lemma_edit_spares_others(before, h as int, local, j);
                assert(before.parents[j] == before_nodes[j].parent);
                if self@.has_parent(j) {
                    let p = before.parents[j].unwrap() as int;
                    assert(!before_nodes[p].dirty);
                    assert(!before.is_descendant(p, h as int));
                }
            }
        }
    }

    /// Gives the root the local transform `transform`.
    pub fn set_transform(&mut self, transform: Mat4<S>)
        requires
            old(self).wf(),
        ensures
            final(self).wf(),
            final(self)@ == old(self)@.with_local(0, transform),
            final(self)@.world(0) == transform,
            final(self).dirty_flags() == Seq::new(
                old(self)@.locals.len(),
                |j: int| old(self).dirty_flags()[j] || old(self)@.is_descendant(j, 0),
            ),
    {
        self.set_local_transform(0, transform);
    }

    /// The world transform of node `h`. A stale cache is recomputed from
    /// the parent's world transform, which is asked for in the same way;
    /// afterwards the caches of `h` and of every node above it are fresh.
    pub fn world_transform(&mut self, h: usize) -> (r: Mat4<S>)
        requires
            old(self).wf(),
            h < old(self)@.locals.len(),
        ensures
            final(self).wf(),
            final(self)@ == old(self)@,
            r == old(self)@.world(h as int),
            final(self).dirty_flags() == Seq::new(
                old(self)@.locals.len(),
                |j: int| old(self).dirty_flags()[j] && !old(self)@.is_descendant(h as int, j),
            ),
        decreases h,
    {
        let ghost before = self@;
        let ghost before_nodes = self.nodes@;
        let node = self.nodes[h];
        proof {
            assert(before.parents[h as int] == node.parent);
        }
        if !node.dirty {
            proof {
                self.lemma_fresh_above(h as int);
                assert(self.dirty_flags() =~= Seq::new(
                    old(self)@.locals.len(),
                    |j: int| old(self).dirty_flags()[j] && !old(self)@.is_descendant(h as int, j),
                ));
            }
            return node.world;
        }
        let w = match node.parent {
            Some(p) => {
                let pw = self.world_transform(p);
                pw.mul(&node.local)
            },
            None => node.local,
        };
        let ghost mid_nodes = self.nodes@;
        let ghost mid_flags = self.dirty_flags();
        proof {
            assert(self@ == before);
            assert(w == before.world(h as int));
            assert forall|j: int| 0 <= j < before.locals.len() implies mid_flags[j] == (old(
                self,
            ).dirty_flags()[j] && !(before.has_parent(h as int) && before.is_descendant(
                before.parents[h as int].unwrap() as int,
                j,
            ))) by {}
            assert(self@.locals[h as int] == self.nodes@[h as int].local);
            assert(self@.parents[h as int] == self.nodes@[h as int].parent);
            assert(mid_flags[h as int] == self.nodes@[h as int].dirty);
        }
        self.nodes.set(h, GltfTransform { local: node.local, parent: node.parent, world: w, dirty: false });
        proof {
            assert(self@.locals =~= before.locals);
            assert(self@.parents =~= before.parents);
            assert(self.nodes@.len() == mid_nodes.len());
            assert(mid_nodes.len() == before.locals.len());
            assert(self.dirty_flags().len() == before.locals.len());
            let ghost target = Seq::new(
                old(self)@.locals.len(),
                |j: int| old(self).dirty_flags()[j] && !old(self)@.is_descendant(h as int, j),
            );
            assert(self.dirty_flags() =~= target) by {
                assert forall|j: int| 0 <= j < before.locals.len() implies #[trigger] self.dirty_flags()[j]
                    == target[j] by {
                    assert(before.is_descendant(h as int, j) == (h == j || (before.has_parent(h as int)
                        && before.is_descendant(before.parents[h as int].unwrap() as int, j))));
                    if j != h {
                        assert(self.nodes@[j] == mid_nodes[j]);
                        assert(mid_flags[j] == mid_nodes[j].dirty);
                    }
                }
            }
            assert forall|j: int| 0 <= j < self.nodes@.len() && !(#[trigger] self.nodes@[j]).dirty implies self.nodes@[j].world
                == self@.world(j) && (self@.has_parent(j) ==> !self.nodes@[self.nodes@[j].parent.unwrap() as int].dirty) by {
                if j != h {
                    assert(self.nodes@[j] == mid_nodes[j]);
                    assert(self@.parents[j] == mid_nodes[j].parent);
                    if self@.has_parent(j) {
                        let p = mid_nodes[j].parent.unwrap() as int;
                        if p != h {
                            assert(self.nodes@[p] == mid_nodes[p]);
                        }
                    }
                } else {
                    if self@.has_parent(j) {
                        let p = node.parent.unwrap() as int;
                        assert(mid_flags[p] == mid_nodes[p].dirty);
                        assert(before.is_descendant(p, p));
                        assert(self.nodes@[p] == mid_nodes[p]);
                    }
                }
            }
        }
        w
    }

    /// Above a fresh cache every cache is fresh.
    proof fn lemma_fresh_above(&self, h: int)
        requires
            self.wf(),
            0 <= h < self@.locals.len(),
            !self.dirty_flags()[h],
        ensures
            forall|j: int|
                0 <= j < self@.locals.len() && self@.is_descendant(h, j) ==> !#[trigger] self.dirty_flags()[j],
        decreases h,
    {
        assert(!self.nodes@[h].dirty);
        assert(self@.parents[h] == self.nodes@[h].parent);
        if self@.has_parent(h) {
            let p = self@.parents[h].unwrap() as int;
            assert(!self.nodes@[p].dirty);
            self.lemma_fresh_above(p);
        }
    }
}

/// A node's world transform is its parent's world transform times its own
/// local transform, whatever edits came before.
pub proof fn lemma_world_composes<S: Scalar>(v: HierarchyView<S>, h: int)
    requires
        v.wf(),
        0 < h < v.locals.len(),
    ensures
        v.parents[h] is Some,
        v.world(h) == v.world(v.parents[h].unwrap() as int).product(v.locals[h]),
{
}

/// The root's world transform is its local transform.
pub proof fn lemma_root_world<S: Scalar>(v: HierarchyView<S>)
    requires
        v.wf(),
    ensures
        v.world(0) == v.locals[0],
{
}

/// Editing the local transform of `n` leaves the world transform of every
/// node outside the subtree of `n` as it was.
pub proof fn lemma_edit_spares_others<S: Scalar>(v: HierarchyView<S>, n: int, m: Mat4<S>, j: int)
    requires
        0 <= n < v.locals.len(),
        0 <= j < v.locals.len(),
        v.locals.len() == v.parents.len(),
        !v.is_descendant(j, n),
    ensures
        v.with_local(n, m).world(j) == v.world(j),
    decreases j,
{
    if v.has_parent(j) {
        lemma_edit_spares_others(v, n, m, v.parents[j].unwrap() as int);
    }
}

/// Two trees that agree on their first `k` nodes give those nodes the same
/// world transforms.
pub proof fn lemma_world_of_prefix<S: Scalar>(a: HierarchyView<S>, b: HierarchyView<S>, k: int, j: int)
    requires
        0 <= j < k,
        k <= a.locals.len(),
        k <= b.locals.len(),
        k <= a.parents.len(),
        k <= b.parents.len(),
        forall|i: int|
            #![trigger a.locals[i]]
            #![trigger a.parents[i]]
            0 <= i < k ==> a.locals[i] == b.locals[i] && a.parents[i] == b.parents[i],
    ensures
        a.world(j) == b.world(j),
    decreases j,
{
    if a.has_parent(j) {
        lemma_world_of_prefix(a, b, k, a.parents[j].unwrap() as int);
    }
}

} // verus!
