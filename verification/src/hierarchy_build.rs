use vstd::prelude::*;
use crate::scalar::Scalar;
use crate::matrix::Mat4;
use crate::error::ImportError;
use crate::scene::{SourceNode, has_parent};
use crate::transform::{GltfTransformHierarchy, HierarchyView};

verus! {

/// Among the first `k` nodes every parent precedes its child and no two
/// nodes carry one source index.
pub open spec fn nodes_well_formed<S: Scalar>(nodes: Seq<SourceNode<S>>, k: int) -> bool {
    &&& forall|i: int| 0 <= i < k && (#[trigger] nodes[i]).parent is Some ==> nodes[i].parent.unwrap() < i
    &&& forall|i: int, j: int| 0 <= i < j < k ==> (#[trigger] nodes[i]).index != (#[trigger] nodes[j]).index
}

/// The handle of the parent of the node at `i`: the root for a node without
/// a parent, else the handle of the node it names.
pub open spec fn parent_handle<S: Scalar>(nodes: Seq<SourceNode<S>>, i: int) -> int {
    if has_parent(nodes, i) {
        nodes[i].parent.unwrap() + 1
    } else {
        0
    }
}

/// Whether `index` leads to the handle `h`.
pub open spec fn leads_to(index: Map<usize, usize>, key: usize, h: int) -> bool {
    index.contains_key(key) && index[key] == h
}

/// Whether one of the first `k` nodes carries the source index `key`.
pub open spec fn declares<S: Scalar>(nodes: Seq<SourceNode<S>>, k: int, key: usize) -> bool {
    exists|i: int| 0 <= i < k && (#[trigger] nodes[i]).index == key
}

/// The hierarchy of the first `k` nodes: the root with the unit transform,
/// then one node for each source node, in order, so that the node at
/// position `i` has the handle `i + 1` and is found under its source index;
/// nothing else is registered.
pub open spec fn is_hierarchy_of<S: Scalar>(v: HierarchyView<S>, nodes: Seq<SourceNode<S>>, k: int) -> bool {
    &&& v.locals.len() == k + 1
    &&& v.parents.len() == k + 1
    &&& v.locals[0] == Mat4::<S>::identity_value()
    &&& forall|i: int|
        0 <= i < k ==> (#[trigger] v.locals[i + 1]) == nodes[i].local && v.parents[i + 1] is Some
            && v.parents[i + 1].unwrap() == parent_handle(nodes, i)
    &&& forall|i: int| 0 <= i < k ==> leads_to(v.index, (#[trigger] nodes[i]).index, i + 1)
    &&& forall|key: usize| #[trigger] v.index.contains_key(key) ==> declares(nodes, k, key)
}

/// Builds the transform hierarchy of a list of nodes: one transform for
/// each node, below the transform of its parent or below the root, found
/// under the node's source index. A malformed list is a parse error.
pub fn build_hierarchy<S: Scalar>(nodes: &Vec<SourceNode<S>>) -> (r: Result<
    GltfTransformHierarchy<S>,
    ImportError,
>)
    ensures
        match r {
            Ok(h) => nodes_well_formed(nodes@, nodes@.len() as int) && h.wf() && is_hierarchy_of(
                h@,
                nodes@,
                nodes@.len() as int,
            ) && h.dirty_flags() == Seq::new(nodes@.len() + 1, |j: int| j != 0),
            Err(e) => e == ImportError::Parse && !nodes_well_formed(nodes@, nodes@.len() as int),
        },
{
    let mut hierarchy: GltfTransformHierarchy<S> = GltfTransformHierarchy::new();
    let mut i: usize = 0;
    while i < nodes.len()
        invariant
            i <= nodes@.len(),
            hierarchy.wf(),
            nodes_well_formed(nodes@, i as int),
            is_hierarchy_of(hierarchy@, nodes@, i as int),
            hierarchy.dirty_flags() == Seq::new(i as nat + 1, |j: int| j != 0),
        decreases nodes@.len() - i,
    {
        let node = &nodes[i];
        let parent: usize = match node.parent {
            Some(p) => {
                if p >= i {
                    return Err(ImportError::Parse);
                }
                p + 1
            },
            None => 0,
        };
        if hierarchy.node_by_index(node.index).is_some() {
            proof {
                assert(declares(nodes@, i as int, node.index));
                let j = choose|j: int| 0 <= j < i && (#[trigger] nodes@[j]).index == node.index;
                assert(nodes@[j].index == nodes@[i as int].index);
            }
            return Err(ImportError::Parse);
        }
        let ghost before = hierarchy@;
        let ghost flags = hierarchy.dirty_flags();
        let h = hierarchy.add_at_index(node.index, parent, node.local);
        proof {
            let k = i as int + 1;
            assert(hierarchy.dirty_flags() =~= Seq::new(k as nat + 1, |j: int| j != 0));
            assert forall|t: int| 0 <= t < k implies (#[trigger] hierarchy@.locals[t + 1]) == nodes@[t].local
                && hierarchy@.parents[t + 1] is Some && hierarchy@.parents[t + 1].unwrap()
                == parent_handle(nodes@, t) by {
                if t < i {
                    assert(before.locals[t + 1] == nodes@[t].local);
                }
            }
            assert forall|t: int| 0 <= t < k implies leads_to(
                hierarchy@.index,
                (#[trigger] nodes@[t]).index,
                t + 1,
            ) by {
                if t < i {
                    assert(leads_to(before.index, nodes@[t].index, t + 1));
                }
            }
            assert forall|key: usize| #[trigger] hierarchy@.index.contains_key(key) implies declares(
                nodes@,
                k,
                key,
            ) by {
                if key == node.index {
                    assert(nodes@[i as int].index == key);
                } else {
                    assert(before.index.contains_key(key));
                    let j = choose|j: int| 0 <= j < i && (#[trigger] nodes@[j]).index == key;
                    assert(nodes@[j].index == key);
                }
            }
            assert forall|a: int, b: int| 0 <= a < b < k implies (#[trigger] nodes@[a]).index != (
            #[trigger] nodes@[b]).index by {
                if b == i {
                    assert(leads_to(before.index, nodes@[a].index, a + 1));
                }
            }
        }
        i = i + 1;
    }
    Ok(hierarchy)
}

/// A hierarchy built from `n` well-formed nodes holds the root and exactly
/// `n` further nodes, and each source index leads to one node, which no
/// other source index leads to.
pub proof fn lemma_one_node_per_index<S: Scalar>(v: HierarchyView<S>, nodes: Seq<SourceNode<S>>, i: int, j: int)
    requires
        is_hierarchy_of(v, nodes, nodes.len() as int),
        0 <= i < nodes.len(),
        0 <= j < nodes.len(),
    ensures
        v.locals.len() == nodes.len() + 1,
        leads_to(v.index, nodes[i].index, i + 1),
        v.locals[v.index[nodes[i].index] as int] == nodes[i].local,
        i != j ==> v.index[nodes[i].index] != v.index[nodes[j].index],
        i != j ==> nodes[i].index != nodes[j].index,
        forall|key: usize| v.index.contains_key(key) ==> declares(nodes, nodes.len() as int, key),
{
    assert(leads_to(v.index, nodes[i].index, i + 1));
    assert(leads_to(v.index, nodes[j].index, j + 1));
    assert(v.locals[i + 1] == nodes[i].local);
}

} // verus!
