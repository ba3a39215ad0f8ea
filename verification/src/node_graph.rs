use vstd::prelude::*;
use crate::scalar::Scalar;
use crate::matrix::Mat4;
use crate::error::ImportError;
use crate::scene::{SourceExtras, SourceLight, SourceNode};
use crate::hierarchy_build::{declares, nodes_well_formed};

verus! {

/// A node as the asset declares it. Its source index is its position among
/// the declared nodes; its children are named by their source indices.
pub struct DeclaredNode<S: Scalar> {
    pub local: Mat4<S>,
    pub children: Vec<usize>,
    pub mesh: Option<usize>,
    pub skin: Option<usize>,
    pub light: Option<SourceLight<S>>,
    pub extras: Option<SourceExtras<S>>,
}

/// How far a depth-first walk has come: the nodes it has listed, parents
/// first, and for each declared node whether it has been reached.
pub ghost struct Walk<S: Scalar> {
    pub out: Seq<SourceNode<S>>,
    pub seen: Seq<bool>,
}

/// The entry that a walk lists for a declared node.
pub open spec fn entry_of<S: Scalar>(d: DeclaredNode<S>, index: usize, parent: Option<usize>) -> SourceNode<S> {
    SourceNode { index, parent, local: d.local, mesh: d.mesh, skin: d.skin, light: d.light, extras: d.extras }
}

/// The walk from the node `idx`, reached from the entry at `parent`: the
/// node is listed, then its children are walked in their order. A node
/// that is not declared is a reference error; a node reached a second
/// time is a parse error. `fuel` bounds the depth; no walk without
/// repetition is deeper than the number of declared nodes.
pub open spec fn walk_node<S: Scalar>(
    decl: Seq<DeclaredNode<S>>,
    idx: usize,
    parent: Option<usize>,
    fuel: nat,
    w: Walk<S>,
) -> Result<Walk<S>, ImportError>
    decreases fuel, 0nat,
{
    if idx >= decl.len() || idx >= w.seen.len() {
        Err(ImportError::Reference)
    } else if fuel == 0 || w.seen[idx as int] {
        Err(ImportError::Parse)
    } else {
        walk_list(
            decl,
            decl[idx as int].children@,
            Some(w.out.len() as usize),
            (fuel - 1) as nat,
            entered(decl, idx, parent, w),
        )
    }
}

/// The walks from the nodes of `list`, one after the other.
pub open spec fn walk_list<S: Scalar>(
    decl: Seq<DeclaredNode<S>>,
    list: Seq<usize>,
    parent: Option<usize>,
    fuel: nat,
    w: Walk<S>,
) -> Result<Walk<S>, ImportError>
    decreases fuel, 1 + list.len(),
{
    if list.len() == 0 {
        Ok(w)
    } else {
        match walk_list(decl, list.drop_last(), parent, fuel, w) {
            Err(e) => Err(e),
            Ok(w1) => walk_node(decl, list.last(), parent, fuel, w1),
        }
    }
}

/// The nodes of an asset in the order of a depth-first walk from `roots`,
/// each with the position of its parent.
pub open spec fn flattened<S: Scalar>(decl: Seq<DeclaredNode<S>>, roots: Seq<usize>) -> Result<
    Seq<SourceNode<S>>,
    ImportError,
> {
    match walk_list(
        decl,
        roots,
        None,
        decl.len(),
        Walk { out: Seq::<SourceNode<S>>::empty(), seen: Seq::new(decl.len(), |i: int| false) },
    ) {
        Ok(w) => Ok(w.out),
        Err(e) => Err(e),
    }
}

/// A walk that has failed part of the way has failed.
pub proof fn lemma_walk_failure_persists<S: Scalar>(
    decl: Seq<DeclaredNode<S>>,
    list: Seq<usize>,
    k: int,
    parent: Option<usize>,
    fuel: nat,
    w: Walk<S>,
)
    requires
        0 <= k <= list.len(),
        walk_list(decl, list.take(k), parent, fuel, w) is Err,
    ensures
        walk_list(decl, list, parent, fuel, w) == walk_list(decl, list.take(k), parent, fuel, w),
    decreases list.len() - k,
{
    if k < list.len() {
        assert(list.take(k + 1).drop_last() =~= list.take(k));
        lemma_walk_failure_persists(decl, list, k + 1, parent, fuel, w);
    } else {
        assert(list.take(k) =~= list);
    }
}

/// Walks from the node `idx` and lists what is reached in `out`.
pub fn build_recursive<S: Scalar>(
    decl: &Vec<DeclaredNode<S>>,
    idx: usize,
    parent: Option<usize>,
    fuel: usize,
    out: &mut Vec<SourceNode<S>>,
    seen: &mut Vec<bool>,
) -> (r: Result<(), ImportError>)
    ensures
        final(seen)@.len() == old(seen)@.len(),
        match r {
            Ok(_) => walk_node(decl@, idx, parent, fuel as nat, Walk { out: old(out)@, seen: old(seen)@ }) == Ok::<
                Walk<S>,
                ImportError,
            >(Walk { out: final(out)@, seen: final(seen)@ }),
            Err(e) => walk_node(decl@, idx, parent, fuel as nat, Walk { out: old(out)@, seen: old(seen)@ })
                == Err::<Walk<S>, ImportError>(e),
        },
    decreases fuel, 0nat,
{
    if idx >= decl.len() || idx >= seen.len() {
        return Err(ImportError::Reference);
    }
    if fuel == 0 || seen[idx] {
        return Err(ImportError::Parse);
    }
    let d = &decl[idx];
    let extras = match &d.extras {
        Some(e) => Some(SourceExtras { raw: e.raw.clone(), parsed: e.parsed }),
        None => None,
    };
    let position = out.len();
    out.push(SourceNode { index: idx, parent, local: d.local, mesh: d.mesh, skin: d.skin, light: d.light, extras });
    seen.set(idx, true);
    build_list(decl, &d.children, Some(position), fuel - 1, out, seen)
}

/// Walks from the nodes of `list`, one after the other, and lists what is
/// reached in `out`.
pub fn build_list<S: Scalar>(
    decl: &Vec<DeclaredNode<S>>,
    list: &Vec<usize>,
    parent: Option<usize>,
    fuel: usize,
    out: &mut Vec<SourceNode<S>>,
    seen: &mut Vec<bool>,
) -> (r: Result<(), ImportError>)
    ensures
        final(seen)@.len() == old(seen)@.len(),
        match r {
            Ok(_) => walk_list(decl@, list@, parent, fuel as nat, Walk { out: old(out)@, seen: old(seen)@ }) == Ok::<
                Walk<S>,
                ImportError,
            >(Walk { out: final(out)@, seen: final(seen)@ }),
            Err(e) => walk_list(decl@, list@, parent, fuel as nat, Walk { out: old(out)@, seen: old(seen)@ })
                == Err::<Walk<S>, ImportError>(e),
        },
    decreases fuel, 1nat,
{
    let ghost start = Walk { out: out@, seen: seen@ };
    let mut k: usize = 0;
    assert(list@.take(0) =~= Seq::<usize>::empty());
    while k < list.len()
        invariant
            k <= list@.len(),
            seen@.len() == start.seen.len(),
            start == (Walk { out: old(out)@, seen: old(seen)@ }),
            walk_list(decl@, list@.take(k as int), parent, fuel as nat, start) == Ok::<Walk<S>, ImportError>(
                Walk { out: out@, seen: seen@ },
            ),
        decreases list@.len() - k,
    {
        proof {
            assert(list@.take(k + 1).drop_last() =~= list@.take(k as int));
            assert(list@.take(k + 1).last() == list@[k as int]);
        }
        match build_recursive(decl, list[k], parent, fuel, out, seen) {
            Ok(_) => {},
            Err(e) => {
                proof {
                    lemma_walk_failure_persists(decl@, list@, k + 1, parent, fuel as nat, start);
                }
                return Err(e);
            },
        }
        k = k + 1;
    }
    proof {
        assert(list@.take(k as int) =~= list@);
    }
    Ok(())
}

/// Lists the nodes of an asset in the order of a depth-first walk from
/// `roots`, parents first, each with the position of its parent.
pub fn flatten<S: Scalar>(decl: &Vec<DeclaredNode<S>>, roots: &Vec<usize>) -> (r: Result<
    Vec<SourceNode<S>>,
    ImportError,
>)
    ensures
        match r {
            Ok(list) => flattened(decl@, roots@) == Ok::<Seq<SourceNode<S>>, ImportError>(list@),
            Err(e) => flattened(decl@, roots@) == Err::<Seq<SourceNode<S>>, ImportError>(e),
        },
{
    let mut out: Vec<SourceNode<S>> = Vec::new();
    let mut seen: Vec<bool> = Vec::new();
    let mut i: usize = 0;
    while i < decl.len()
        invariant
            i <= decl@.len(),
            seen@ =~= Seq::new(i as nat, |j: int| false),
        decreases decl@.len() - i,
    {
        seen.push(false);
        i = i + 1;
    }
    assert(out@ =~= Seq::<SourceNode<S>>::empty());
    match build_list(decl, roots, None, decl.len(), &mut out, &mut seen) {
        Ok(_) => Ok(out),
        Err(e) => Err(e),
    }
}

/// The number of nodes that have been reached.
pub open spec fn count_seen(seen: Seq<bool>) -> nat
    decreases seen.len(),
{
    if seen.len() == 0 {
        0
    } else {
        count_seen(seen.drop_last()) + if seen.last() {
            1nat
        } else {
            0nat
        }
    }
}

/// No more nodes have been reached than there are, and all of them only
/// where every one has been.
pub proof fn lemma_count_seen_bounds(seen: Seq<bool>)
    ensures
        count_seen(seen) <= seen.len(),
        (forall|i: int| 0 <= i < seen.len() ==> seen[i]) ==> count_seen(seen) == seen.len(),
        (forall|i: int| 0 <= i < seen.len() ==> !seen[i]) ==> count_seen(seen) == 0,
    decreases seen.len(),
{
    if seen.len() > 0 {
        lemma_count_seen_bounds(seen.drop_last());
        assert forall|i: int| 0 <= i < seen.drop_last().len() implies seen.drop_last()[i] == seen[i] by {}
    }
}

/// Reaching a node that had not been reached raises the count by one.
pub proof fn lemma_count_seen_grows(seen: Seq<bool>, i: int)
    requires
        0 <= i < seen.len(),
        !seen[i],
    ensures
        count_seen(seen.update(i, true)) == count_seen(seen) + 1,
    decreases seen.len(),
{
    let after = seen.update(i, true);
    if i == seen.len() - 1 {
        assert(after.drop_last() =~= seen.drop_last());
    } else {
        assert(after.drop_last() =~= seen.drop_last().update(i, true));
        lemma_count_seen_grows(seen.drop_last(), i);
    }
}

/// What holds of a walk at every step: each listed node has been reached,
/// as many nodes are listed as have been reached, every parent precedes
/// its child, and no node is listed twice.
pub open spec fn walk_sound<S: Scalar>(w: Walk<S>) -> bool {
    &&& w.seen.len() <= usize::MAX
    &&& w.out.len() == count_seen(w.seen)
    &&& forall|i: int| 0 <= i < w.out.len() ==> (#[trigger] w.out[i]).index < w.seen.len() && w.seen[w.out[i].index as int]
    &&& nodes_well_formed(w.out, w.out.len() as int)
}

/// The walk that has just listed the node `idx`.
pub open spec fn entered<S: Scalar>(decl: Seq<DeclaredNode<S>>, idx: usize, parent: Option<usize>, w: Walk<S>) -> Walk<
    S,
> {
    Walk { out: w.out.push(entry_of(decl[idx as int], idx, parent)), seen: w.seen.update(idx as int, true) }
}

/// Listing a node that had not been reached keeps a sound walk sound.
pub proof fn lemma_entered_sound<S: Scalar>(
    decl: Seq<DeclaredNode<S>>,
    idx: usize,
    parent: Option<usize>,
    w: Walk<S>,
)
    requires
        walk_sound(w),
        parent is Some ==> parent.unwrap() < w.out.len(),
        idx < w.seen.len(),
        !w.seen[idx as int],
    ensures
        walk_sound(entered(decl, idx, parent, w)),
        count_seen(entered(decl, idx, parent, w).seen) == count_seen(w.seen) + 1,
        count_seen(w.seen) < w.seen.len(),
        w.out.len() as usize == w.out.len(),
{
    let position = w.out.len();
    let w1 = entered(decl, idx, parent, w);
    lemma_count_seen_grows(w.seen, idx as int);
    lemma_count_seen_bounds(w1.seen);
    assert forall|i: int| 0 <= i < w1.out.len() implies (#[trigger] w1.out[i]).index < w1.seen.len()
        && w1.seen[w1.out[i].index as int] by {
        if i < position {
            assert(w1.out[i] == w.out[i]);
        }
    }
    assert forall|i: int| 0 <= i < w1.out.len() && (#[trigger] w1.out[i]).parent is Some implies w1.out[i].parent.unwrap()
        < i by {
        if i < position {
            assert(w1.out[i] == w.out[i]);
        }
    }
    assert forall|i: int, j: int| 0 <= i < j < w1.out.len() implies (#[trigger] w1.out[i]).index != (
    #[trigger] w1.out[j]).index by {
        assert(w1.out[i] == w.out[i]);
        if j < position {
            assert(w1.out[j] == w.out[j]);
        }
    }
}

/// A walk from a node keeps a sound walk sound, and only adds to it.
pub proof fn lemma_walk_node_sound<S: Scalar>(
    decl: Seq<DeclaredNode<S>>,
    idx: usize,
    parent: Option<usize>,
    fuel: nat,
    w: Walk<S>,
)
    requires
        walk_sound(w),
        parent is Some ==> parent.unwrap() < w.out.len(),
        walk_node(decl, idx, parent, fuel, w) is Ok,
    ensures
        walk_sound(walk_node(decl, idx, parent, fuel, w).unwrap()),
        walk_node(decl, idx, parent, fuel, w).unwrap().out.len() >= w.out.len(),
        walk_node(decl, idx, parent, fuel, w).unwrap().seen.len() == w.seen.len(),
    decreases fuel, 0nat,
{
    lemma_entered_sound(decl, idx, parent, w);
    lemma_walk_list_sound(
        decl,
        decl[idx as int].children@,
        Some(w.out.len() as usize),
        (fuel - 1) as nat,
        entered(decl, idx, parent, w),
    );
}

/// Walks from a list of nodes keep a sound walk sound, and only add to it.
pub proof fn lemma_walk_list_sound<S: Scalar>(
    decl: Seq<DeclaredNode<S>>,
    list: Seq<usize>,
    parent: Option<usize>,
    fuel: nat,
    w: Walk<S>,
)
    requires
        walk_sound(w),
        parent is Some ==> parent.unwrap() < w.out.len(),
        walk_list(decl, list, parent, fuel, w) is Ok,
    ensures
        walk_sound(walk_list(decl, list, parent, fuel, w).unwrap()),
        walk_list(decl, list, parent, fuel, w).unwrap().out.len() >= w.out.len(),
        walk_list(decl, list, parent, fuel, w).unwrap().seen.len() == w.seen.len(),
    decreases fuel, 1 + list.len(),
{
    if list.len() > 0 {
        lemma_walk_list_sound(decl, list.drop_last(), parent, fuel, w);
        let w1 = walk_list(decl, list.drop_last(), parent, fuel, w).unwrap();
        lemma_walk_node_sound(decl, list.last(), parent, fuel, w1);
    }
}

/// The nodes that a walk lists are well formed: every parent precedes its
/// child and no source index occurs twice. There are no more of them than
/// nodes are declared, and exactly as many where every declared node is
/// listed.
pub proof fn lemma_flattened_well_formed<S: Scalar>(decl: Seq<DeclaredNode<S>>, roots: Seq<usize>)
    requires
        decl.len() <= usize::MAX,
        flattened(decl, roots) is Ok,
    ensures
        nodes_well_formed(flattened(decl, roots).unwrap(), flattened(decl, roots).unwrap().len() as int),
        flattened(decl, roots).unwrap().len() <= decl.len(),
        forall|i: int|
            0 <= i < flattened(decl, roots).unwrap().len() ==> (#[trigger] flattened(decl, roots).unwrap()[i]).index
                < decl.len(),
        (forall|idx: usize|
            idx < decl.len() ==> #[trigger] declares(
                flattened(decl, roots).unwrap(),
                flattened(decl, roots).unwrap().len() as int,
                idx,
            )) ==> flattened(decl, roots).unwrap().len() == decl.len(),
{
    let start = Walk { out: Seq::<SourceNode<S>>::empty(), seen: Seq::new(decl.len(), |i: int| false) };
    lemma_count_seen_bounds(start.seen);
    lemma_walk_list_sound(decl, roots, None, decl.len(), start);
    let end = walk_list(decl, roots, None, decl.len(), start).unwrap();
    lemma_count_seen_bounds(end.seen);
    let list = flattened(decl, roots).unwrap();
    assert(list == end.out);
    if forall|idx: usize| idx < decl.len() ==> #[trigger] declares(list, list.len() as int, idx) {
        assert forall|k: int| 0 <= k < end.seen.len() implies end.seen[k] by {
            let idx = k as usize;
            assert(declares(list, list.len() as int, idx));
            let i = choose|i: int| 0 <= i < list.len() && (#[trigger] list[i]).index == idx;
            assert(end.seen[end.out[i].index as int]);
        }
    }
}

/// The bound on the depth is never met: with as much fuel as nodes are yet
/// to be reached, more fuel changes nothing. So a walk fails only where a
/// node is not declared or is reached twice.
pub proof fn lemma_fuel_suffices_node<S: Scalar>(
    decl: Seq<DeclaredNode<S>>,
    idx: usize,
    parent: Option<usize>,
    fuel: nat,
    w: Walk<S>,
)
    requires
        walk_sound(w),
        parent is Some ==> parent.unwrap() < w.out.len(),
        fuel + count_seen(w.seen) >= w.seen.len(),
    ensures
        walk_node(decl, idx, parent, fuel + 1, w) == walk_node(decl, idx, parent, fuel, w),
    decreases fuel, 0nat,
{
    if idx < decl.len() && idx < w.seen.len() && !w.seen[idx as int] {
        lemma_entered_sound(decl, idx, parent, w);
        lemma_fuel_suffices_list(
            decl,
            decl[idx as int].children@,
            Some(w.out.len() as usize),
            (fuel - 1) as nat,
            entered(decl, idx, parent, w),
        );
    }
}

/// The same of the walks from a list of nodes.
pub proof fn lemma_fuel_suffices_list<S: Scalar>(
    decl: Seq<DeclaredNode<S>>,
    list: Seq<usize>,
    parent: Option<usize>,
    fuel: nat,
    w: Walk<S>,
)
    requires
        walk_sound(w),
        parent is Some ==> parent.unwrap() < w.out.len(),
        fuel + count_seen(w.seen) >= w.seen.len(),
    ensures
        walk_list(decl, list, parent, fuel + 1, w) == walk_list(decl, list, parent, fuel, w),
    decreases fuel, 1 + list.len(),
{
    if list.len() > 0 {
        lemma_fuel_suffices_list(decl, list.drop_last(), parent, fuel, w);
        let before = walk_list(decl, list.drop_last(), parent, fuel, w);
        if before is Ok {
            lemma_walk_list_sound(decl, list.drop_last(), parent, fuel, w);
            lemma_fuel_suffices_node(decl, list.last(), parent, fuel, before.unwrap());
        }
    }
}

} // verus!
