use vstd::prelude::*;
use crate::scalar::Scalar;
use crate::matrix::Mat4;
use crate::error::ImportError;
use crate::scene::SourceMesh;
use crate::transform::GltfTransformHierarchy;

verus! {

/// The material of a primitive: one the asset declares, or the default
/// material made for primitives that declare none.
#[derive(Clone, Copy, Debug, PartialEq, Eq, Structural)]
pub enum MaterialBinding {
    Declared(usize),
    Default,
}

/// A mesh of the model: its flags and the material of each primitive.
pub struct GltfMesh {
    pub is_billboard: bool,
    pub keep_upright: bool,
    pub materials: Vec<MaterialBinding>,
}

/// A joint as the asset declares it: a node by its source index, and the
/// inverse-bind matrix.
#[derive(Clone, Copy)]
pub struct SourceJoint<S: Scalar> {
    pub node: usize,
    pub inverse_bind_matrix: Mat4<S>,
}

/// A skin as the asset declares it.
pub struct SourceSkin<S: Scalar> {
    pub joints: Vec<SourceJoint<S>>,
}

/// A joint of a skin: the handle of its transform, and the inverse-bind
/// matrix.
#[derive(Clone, Copy)]
pub struct GltfJoint<S: Scalar> {
    pub transform: usize,
    pub inverse_bind_matrix: Mat4<S>,
}

/// A skin of the model: its joints, in order.
pub struct GltfSkin<S: Scalar> {
    pub joints: Vec<GltfJoint<S>>,
}

/// An animation as the asset declares it: its name and, for each channel,
/// the source index of the node it moves.
pub struct SourceAnimation {
    pub name: String,
    pub targets: Vec<usize>,
}

/// An animation of the model: its name and, for each channel, the handle
/// of the transform it moves.
pub struct GltfAnimation {
    pub name: String,
    pub targets: Vec<usize>,
}

/// The first fault among the first `k` entries of a list of faults.
pub open spec fn first_fault(faults: Seq<Option<ImportError>>, k: int) -> Option<ImportError>
    decreases k,
{
    if k <= 0 {
        None
    } else if first_fault(faults, k - 1) is Some {
        first_fault(faults, k - 1)
    } else {
        faults[k - 1]
    }
}

/// The first fault stays the first, however many entries follow.
pub proof fn lemma_first_fault_persists(faults: Seq<Option<ImportError>>, k: int, n: int)
    requires
        0 <= k <= n,
        first_fault(faults, k) is Some,
    ensures
        first_fault(faults, n) == first_fault(faults, k),
    decreases n - k,
{
    if k < n {
        lemma_first_fault_persists(faults, k, n - 1);
    }
}

/// Where there is no first fault, there is no fault.
pub proof fn lemma_no_fault(faults: Seq<Option<ImportError>>, n: int, i: int)
    requires
        0 <= i < n,
        first_fault(faults, n) is None,
    ensures
        faults[i] is None,
    decreases n,
{
    if i < n - 1 {
        lemma_no_fault(faults, n - 1, i);
    }
}

/// The binding of a primitive that declares `material`.
pub open spec fn binding_of(material: Option<usize>) -> MaterialBinding {
    match material {
        Some(m) => MaterialBinding::Declared(m),
        None => MaterialBinding::Default,
    }
}

/// Whether a primitive of the mesh declares a material that does not exist.
pub open spec fn mesh_fault(mesh: SourceMesh, material_count: int) -> bool {
    exists|p: int|
        0 <= p < mesh.primitive_materials@.len() && (#[trigger] mesh.primitive_materials@[p]) is Some
            && mesh.primitive_materials@[p].unwrap() >= material_count
}

/// The mesh `g` is the mesh of the declaration `mesh`.
pub open spec fn is_mesh_of(g: GltfMesh, mesh: SourceMesh) -> bool {
    &&& g.is_billboard == mesh.is_billboard
    &&& g.keep_upright == mesh.keep_upright
    &&& g.materials@.len() == mesh.primitive_materials@.len()
    &&& forall|p: int|
        0 <= p < g.materials@.len() ==> (#[trigger] g.materials@[p]) == binding_of(mesh.primitive_materials@[p])
}

/// What stops a skin: more joints than the joint block takes, or, failing
/// that, a joint whose node has no transform.
pub open spec fn skin_fault<S: Scalar>(skin: SourceSkin<S>, index: Map<usize, usize>, max_joints: int) -> Option<
    ImportError,
> {
    if skin.joints@.len() > max_joints {
        Some(ImportError::Resource)
    } else if exists|j: int| 0 <= j < skin.joints@.len() && !index.contains_key((#[trigger] skin.joints@[j]).node) {
        Some(ImportError::Reference)
    } else {
        None
    }
}

/// The skin `g` is the skin of the declaration `skin`.
pub open spec fn is_skin_of<S: Scalar>(g: GltfSkin<S>, skin: SourceSkin<S>, index: Map<usize, usize>) -> bool {
    &&& g.joints@.len() == skin.joints@.len()
    &&& forall|j: int|
        0 <= j < g.joints@.len() ==> index.contains_key(skin.joints@[j].node) && (#[trigger] g.joints@[j])
            == (GltfJoint {
            transform: index[skin.joints@[j].node],
            inverse_bind_matrix: skin.joints@[j].inverse_bind_matrix,
        })
}

/// Whether a channel of the animation moves a node that has no transform.
pub open spec fn targets_fault(anim: SourceAnimation, index: Map<usize, usize>) -> bool {
    exists|t: int| 0 <= t < anim.targets@.len() && !index.contains_key(#[trigger] anim.targets@[t])
}

/// Whether an animation before the one at `i` has its name.
pub open spec fn name_taken(anims: Seq<SourceAnimation>, i: int) -> bool {
    exists|j: int| 0 <= j < i && (#[trigger] anims[j]).name@ == anims[i].name@
}

/// What stops the animation at `i`: a channel without a transform, or,
/// failing that, a name that an earlier animation has.
pub open spec fn animation_fault(anims: Seq<SourceAnimation>, index: Map<usize, usize>, i: int) -> Option<
    ImportError,
> {
    if targets_fault(anims[i], index) {
        Some(ImportError::Reference)
    } else if name_taken(anims, i) {
        Some(ImportError::NameCollision)
    } else {
        None
    }
}

/// The fault of each animation.
pub open spec fn animation_faults(anims: Seq<SourceAnimation>, index: Map<usize, usize>) -> Seq<
    Option<ImportError>,
> {
    Seq::new(anims.len(), |i: int| animation_fault(anims, index, i))
}

/// The animation `g` is the animation of the declaration `anim`.
pub open spec fn is_animation_of(g: GltfAnimation, anim: SourceAnimation, index: Map<usize, usize>) -> bool {
    &&& g.name@ == anim.name@
    &&& g.targets@.len() == anim.targets@.len()
    &&& forall|t: int|
        0 <= t < g.targets@.len() ==> index.contains_key(anim.targets@[t]) && (#[trigger] g.targets@[t])
            == index[anim.targets@[t]]
}

/// The animations `gs` are those of the first `k` declarations.
pub open spec fn are_animations_of(
    gs: Seq<GltfAnimation>,
    anims: Seq<SourceAnimation>,
    index: Map<usize, usize>,
    k: int,
) -> bool {
    &&& gs.len() == k
    &&& forall|i: int| 0 <= i < k ==> is_animation_of(#[trigger] gs[i], anims[i], index)
}

/// Loads a mesh of an asset with `material_count` materials: each primitive
/// is bound to the material it declares, or to the default material. A
/// material that does not exist is a reference error.
pub fn load_mesh(mesh: &SourceMesh, material_count: usize) -> (r: Result<GltfMesh, ImportError>)
    ensures
        match r {
            Ok(g) => !mesh_fault(*mesh, material_count as int) && is_mesh_of(g, *mesh),
            Err(e) => e == ImportError::Reference && mesh_fault(*mesh, material_count as int),
        },
{
    let mut materials: Vec<MaterialBinding> = Vec::new();
    let mut p: usize = 0;
    while p < mesh.primitive_materials.len()
        invariant
            p <= mesh.primitive_materials@.len(),
            materials@.len() == p,
            forall|q: int|
                0 <= q < p ==> (#[trigger] materials@[q]) == binding_of(mesh.primitive_materials@[q]),
            forall|q: int|
                0 <= q < p ==> !((#[trigger] mesh.primitive_materials@[q]) is Some
                    && mesh.primitive_materials@[q].unwrap() >= material_count),
        decreases mesh.primitive_materials@.len() - p,
    {
        let binding = match mesh.primitive_materials[p] {
            Some(m) => {
                if m >= material_count {
                    return Err(ImportError::Reference);
                }
                MaterialBinding::Declared(m)
            },
            None => MaterialBinding::Default,
        };
        materials.push(binding);
        p = p + 1;
    }
    Ok(GltfMesh { is_billboard: mesh.is_billboard, keep_upright: mesh.keep_upright, materials })
}

/// Loads a skin: each joint takes the transform registered under its
/// node's source index. A skin with more than `max_joints` joints is a
/// resource error; a joint whose node has no transform, a reference error.
pub fn load_skin<S: Scalar>(
    skin: &SourceSkin<S>,
    transform_hierarchy: &GltfTransformHierarchy<S>,
    max_joints: usize,
) -> (r: Result<GltfSkin<S>, ImportError>)
    ensures
        match r {
            Ok(g) => skin_fault(*skin, transform_hierarchy@.index, max_joints as int) is None && is_skin_of(
                g,
                *skin,
                transform_hierarchy@.index,
            ),
            Err(e) => skin_fault(*skin, transform_hierarchy@.index, max_joints as int) == Some(e),
        },
{
    if skin.joints.len() > max_joints {
        return Err(ImportError::Resource);
    }
    let mut joints: Vec<GltfJoint<S>> = Vec::new();
    let mut j: usize = 0;
    while j < skin.joints.len()
        invariant
            j <= skin.joints@.len(),
            skin.joints@.len() <= max_joints,
            joints@.len() == j,
            forall|q: int|
                0 <= q < j ==> transform_hierarchy@.index.contains_key(skin.joints@[q].node) && (
                #[trigger] joints@[q]) == (GltfJoint {
                    transform: transform_hierarchy@.index[skin.joints@[q].node],
                    inverse_bind_matrix: skin.joints@[q].inverse_bind_matrix,
                }),
            forall|q: int|
                0 <= q < j ==> transform_hierarchy@.index.contains_key((#[trigger] skin.joints@[q]).node),
        decreases skin.joints@.len() - j,
    {
        let joint = skin.joints[j];
        match transform_hierarchy.node_by_index(joint.node) {
            Some(h) => {
                joints.push(GltfJoint { transform: h, inverse_bind_matrix: joint.inverse_bind_matrix });
            },
            None => {
                assert(!transform_hierarchy@.index.contains_key(skin.joints@[j as int].node));
                return Err(ImportError::Reference);
            },
        }
        j = j + 1;
    }
    Ok(GltfSkin { joints })
}

/// Resolves the channels of an animation to transforms; `None` where a
/// channel moves a node that has no transform.
pub fn resolve_targets<S: Scalar>(anim: &SourceAnimation, transform_hierarchy: &GltfTransformHierarchy<S>) -> (r:
    Option<Vec<usize>>)
    ensures
        match r {
            Some(ts) => !targets_fault(*anim, transform_hierarchy@.index) && ts@.len() == anim.targets@.len()
                && forall|t: int|
                0 <= t < ts@.len() ==> transform_hierarchy@.index.contains_key(anim.targets@[t]) && (
                #[trigger] ts@[t]) == transform_hierarchy@.index[anim.targets@[t]],
            None => targets_fault(*anim, transform_hierarchy@.index),
        },
{
    let mut targets: Vec<usize> = Vec::new();
    let mut t: usize = 0;
    while t < anim.targets.len()
        invariant
            t <= anim.targets@.len(),
            targets@.len() == t,
            forall|q: int|
                0 <= q < t ==> transform_hierarchy@.index.contains_key(anim.targets@[q]) && (
                #[trigger] targets@[q]) == transform_hierarchy@.index[anim.targets@[q]],
            forall|q: int| 0 <= q < t ==> transform_hierarchy@.index.contains_key(#[trigger] anim.targets@[q]),
        decreases anim.targets@.len() - t,
    {
        match transform_hierarchy.node_by_index(anim.targets[t]) {
            Some(h) => {
                targets.push(h);
            },
            None => {
                assert(!transform_hierarchy@.index.contains_key(anim.targets@[t as int]));
                return None;
            },
        }
        t = t + 1;
    }
    Some(targets)
}

/// Whether one of the animations has the name `name`.
pub fn has_animation(animations: &Vec<GltfAnimation>, name: &String) -> (r: bool)
    ensures
        r == exists|j: int| 0 <= j < animations@.len() && (#[trigger] animations@[j]).name@ == name@,
{
    let mut j: usize = 0;
    while j < animations.len()
        invariant
            j <= animations@.len(),
            forall|q: int| 0 <= q < j ==> (#[trigger] animations@[q]).name@ != name@,
        decreases animations@.len() - j,
    {
        if animations[j].name == *name {
            return true;
        }
        j = j + 1;
    }
    false
}

/// Loads the animations of an asset, in order. A channel that moves a node
/// without a transform is a reference error; an animation whose name an
/// earlier one has, a naming collision.
pub fn load_animations<S: Scalar>(
    anims: &Vec<SourceAnimation>,
    transform_hierarchy: &GltfTransformHierarchy<S>,
) -> (r: Result<Vec<GltfAnimation>, ImportError>)
    ensures
        match r {
            Ok(gs) => first_fault(animation_faults(anims@, transform_hierarchy@.index), anims@.len() as int)
                is None && are_animations_of(gs@, anims@, transform_hierarchy@.index, anims@.len() as int),
            Err(e) => first_fault(animation_faults(anims@, transform_hierarchy@.index), anims@.len() as int)
                == Some(e),
        },
{
    let ghost faults = animation_faults(anims@, transform_hierarchy@.index);
    let mut animations: Vec<GltfAnimation> = Vec::new();
    let mut i: usize = 0;
    while i < anims.len()
        invariant
            i <= anims@.len(),
            faults == animation_faults(anims@, transform_hierarchy@.index),
            first_fault(faults, i as int) is None,
            are_animations_of(animations@, anims@, transform_hierarchy@.index, i as int),
        decreases anims@.len() - i,
    {
        let anim = &anims[i];
        let targets = match resolve_targets(anim, transform_hierarchy) {
            Some(ts) => ts,
            None => {
                proof {
                    assert(faults[i as int] == Some(ImportError::Reference));
                    lemma_first_fault_persists(faults, i as int + 1, anims@.len() as int);
                }
                return Err(ImportError::Reference);
            },
        };
        let taken = has_animation(&animations, &anim.name);
        proof {
            if taken {
                let j = choose|j: int| 0 <= j < animations@.len() && (#[trigger] animations@[j]).name@ == anim.name@;
                assert(is_animation_of(animations@[j], anims@[j], transform_hierarchy@.index));
                assert(anims@[j].name@ == anims@[i as int].name@);
            }
            if name_taken(anims@, i as int) {
                let j = choose|j: int| 0 <= j < i && (#[trigger] anims@[j]).name@ == anims@[i as int].name@;
                assert(is_animation_of(animations@[j], anims@[j], transform_hierarchy@.index));
                assert(animations@[j].name@ == anim.name@);
            }
            assert(taken == name_taken(anims@, i as int));
        }
        if taken {
            proof {
                assert(faults[i as int] == Some(ImportError::NameCollision));
                lemma_first_fault_persists(faults, i as int + 1, anims@.len() as int);
            }
            return Err(ImportError::NameCollision);
        }
        let ghost before = animations@;
        animations.push(GltfAnimation { name: anim.name.clone(), targets });
        proof {
            assert(faults[i as int] is None);
            assert forall|k: int| 0 <= k < i + 1 implies is_animation_of(
                #[trigger] animations@[k],
                anims@[k],
                transform_hierarchy@.index,
            ) by {
                if k < i {
                    assert(animations@[k] == before[k]);
                }
            }
        }
        i = i + 1;
    }
    Ok(animations)
}

} // verus!
