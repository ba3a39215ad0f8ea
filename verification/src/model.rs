use vstd::prelude::*;
use crate::scalar::Scalar;
use crate::matrix::{Mat4, calc_billboard_matrix};
use crate::error::{ImportError, RenderError};
use crate::texture::{ImportConfig, SourceTexture, TexturePlan, load_texture, texture_plan};
use crate::scene::{
    GltfDrawable,
    GltfLight,
    SourceMesh,
    SourceNode,
    build_scene,
    is_scene_of,
    scene_fault,
    scene_in_range,
};
use crate::hierarchy_build::{build_hierarchy, declares, is_hierarchy_of, leads_to, nodes_well_formed};
use crate::node_graph::{DeclaredNode, flatten, flattened, lemma_flattened_well_formed};
use crate::resources::{
    GltfAnimation,
    GltfJoint,
    GltfMesh,
    GltfSkin,
    SourceAnimation,
    SourceSkin,
    animation_faults,
    are_animations_of,
    first_fault,
    is_mesh_of,
    is_skin_of,
    lemma_first_fault_persists,
    load_animations,
    load_mesh,
    load_skin,
    mesh_fault,
    skin_fault,
};
use crate::transform::{GltfTransformHierarchy, HierarchyView};
use crate::params::{GlobalParams, GlobalParamsView};

verus! {

/// An asset as the import reads it: its nodes by source index and the
/// roots of its scenes; the number of its images and materials; and its
/// textures, meshes, skins and animations as declared.
pub struct SourceDocument<S: Scalar> {
    pub nodes: Vec<DeclaredNode<S>>,
    pub roots: Vec<usize>,
    pub image_count: usize,
    pub textures: Vec<SourceTexture>,
    pub material_count: usize,
    pub meshes: Vec<SourceMesh>,
    pub skins: Vec<SourceSkin<S>>,
    pub animations: Vec<SourceAnimation>,
}

/// A model: the transform hierarchy, the resource tables, and the flat
/// lists of drawables and lights.
pub struct GltfModel<S: Scalar> {
    transform_hierarchy: GltfTransformHierarchy<S>,
    textures: Vec<TexturePlan>,
    meshes: Vec<GltfMesh>,
    skins: Vec<GltfSkin<S>>,
    drawables: Vec<GltfDrawable<S>>,
    lights: Vec<GltfLight<S>>,
    animations: Vec<GltfAnimation>,
    max_joints: usize,
}

/// What is handed to the GPU for one drawable in one frame.
pub struct DrawCommand<S: Scalar> {
    pub mesh: usize,
    /// Whether the global parameter block has to be sent before the draw.
    pub upload_global: bool,
    pub model_matrix: Mat4<S>,
    pub lighting_strength: S,
    pub skinning_enabled: bool,
    pub joint_matrices: Vec<Mat4<S>>,
}

/// The fault of each texture: an image that does not exist.
pub open spec fn texture_faults(textures: Seq<SourceTexture>, image_count: int) -> Seq<Option<ImportError>> {
    Seq::new(
        textures.len(),
        |i: int|
            if textures[i].image >= image_count {
                Some(ImportError::Reference)
            } else {
                None
            },
    )
}

/// The fault of each mesh: a material that does not exist.
pub open spec fn mesh_faults(meshes: Seq<SourceMesh>, material_count: int) -> Seq<Option<ImportError>> {
    Seq::new(
        meshes.len(),
        |i: int|
            if mesh_fault(meshes[i], material_count) {
                Some(ImportError::Reference)
            } else {
                None
            },
    )
}

/// The fault of each skin.
pub open spec fn skin_faults<S: Scalar>(skins: Seq<SourceSkin<S>>, index: Map<usize, usize>, max_joints: int) -> Seq<
    Option<ImportError>,
> {
    Seq::new(skins.len(), |i: int| skin_fault(skins[i], index, max_joints))
}

/// The handles that a well-formed list of nodes is found under: the node
/// at position `i` under its source index, with the handle `i + 1`.
pub open spec fn index_of<S: Scalar>(nodes: Seq<SourceNode<S>>) -> Map<usize, usize> {
    Map::new(
        |key: usize| declares(nodes, nodes.len() as int, key),
        |key: usize|
            ((choose|i: int| 0 <= i < nodes.len() && (#[trigger] nodes[i]).index == key) + 1) as usize,
    )
}

/// What stops the import of an asset, if anything does: a walk of the
/// node graph that fails, or else the first fault of the stages that follow.
pub open spec fn import_fault<S: Scalar>(doc: SourceDocument<S>, config: ImportConfig) -> Option<ImportError> {
    match flattened(doc.nodes@, doc.roots@) {
        Err(e) => Some(e),
        Ok(nodes) => stage_fault(nodes, doc, config),
    }
}

/// What stops the import of an asset whose nodes are listed as `nodes`: the
/// first fault in the order of the stages (hierarchy, textures, meshes,
/// skins, animations, scene), and within a stage the first in the order of
/// the list.
pub open spec fn stage_fault<S: Scalar>(
    nodes: Seq<SourceNode<S>>,
    doc: SourceDocument<S>,
    config: ImportConfig,
) -> Option<ImportError> {
    let index = index_of(nodes);
    let textures = first_fault(texture_faults(doc.textures@, doc.image_count as int), doc.textures@.len() as int);
    let meshes = first_fault(mesh_faults(doc.meshes@, doc.material_count as int), doc.meshes@.len() as int);
    let skins = first_fault(skin_faults(doc.skins@, index, config.max_joints as int), doc.skins@.len() as int);
    let animations = first_fault(animation_faults(doc.animations@, index), doc.animations@.len() as int);
    if !nodes_well_formed(nodes, nodes.len() as int) {
        Some(ImportError::Parse)
    } else if textures is Some {
        textures
    } else if meshes is Some {
        meshes
    } else if skins is Some {
        skins
    } else if animations is Some {
        animations
    } else {
        scene_fault(nodes, nodes.len() as int, doc.meshes@.len() as int, doc.skins@.len() as int)
    }
}

/// The transform a drawable is drawn at: its own, or the root's.
pub open spec fn drawable_world<S: Scalar>(tree: HierarchyView<S>, d: GltfDrawable<S>) -> Mat4<S> {
    match d.transform {
        Some(h) => tree.world(h as int),
        None => tree.world(0),
    }
}

/// The model matrix of a drawable: the object's world transform times the
/// drawable's; for a billboard, the camera-facing matrix at that place.
pub open spec fn model_matrix<S: Scalar>(
    tree: HierarchyView<S>,
    d: GltfDrawable<S>,
    mesh: GltfMesh,
    object_world: Mat4<S>,
    view: Mat4<S>,
) -> Mat4<S> {
    let m = object_world.product(drawable_world(tree, d));
    if mesh.is_billboard {
        Mat4::billboard_value(view, m)
    } else {
        m
    }
}

/// The matrix of a joint: the object's world transform times the joint's
/// world transform, times the inverse-bind matrix.
pub open spec fn joint_matrix<S: Scalar>(tree: HierarchyView<S>, joint: GltfJoint<S>, object_world: Mat4<S>) -> Mat4<
    S,
> {
    object_world.product(tree.world(joint.transform as int)).product(joint.inverse_bind_matrix)
}

/// The joint matrices of a skin, in the order of its joints.
pub open spec fn joint_matrices<S: Scalar>(tree: HierarchyView<S>, skin: GltfSkin<S>, object_world: Mat4<S>) -> Seq<
    Mat4<S>,
> {
    Seq::new(skin.joints@.len(), |j: int| joint_matrix(tree, skin.joints@[j], object_world))
}

/// Whether a mesh asks for what is not offered: a billboard kept upright.
pub open spec fn refused(mesh: GltfMesh) -> bool {
    mesh.is_billboard && mesh.keep_upright
}

/// The command `c` draws the drawable `d`.
pub open spec fn is_command_of<S: Scalar>(
    c: DrawCommand<S>,
    tree: HierarchyView<S>,
    d: GltfDrawable<S>,
    meshes: Seq<GltfMesh>,
    skins: Seq<GltfSkin<S>>,
    object_world: Mat4<S>,
    view: Mat4<S>,
) -> bool {
    &&& c.mesh == d.mesh
    &&& c.model_matrix == model_matrix(tree, d, meshes[d.mesh as int], object_world, view)
    &&& c.lighting_strength == d.parsed_extras.lighting_strength
    &&& c.skinning_enabled == (d.skin is Some)
    &&& c.joint_matrices@ == match d.skin {
        Some(s) => joint_matrices(tree, skins[s as int], object_world),
        None => Seq::<Mat4<S>>::empty(),
    }
}

/// Under a sound model no command carries more joint matrices than the
/// joint block takes.
pub proof fn lemma_joints_fit<S: Scalar>(m: GltfModel<S>, i: int, c: DrawCommand<S>, object_world: Mat4<S>, view: Mat4<S>)
    requires
        m.wf(),
        0 <= i < m.drawable_seq().len(),
        is_command_of(c, m.tree()@, m.drawable_seq()[i], m.mesh_seq(), m.skin_seq(), object_world, view),
    ensures
        c.joint_matrices@.len() <= m.joint_capacity(),
{
    let d = m.drawable_seq()[i];
    if d.skin is Some {
        assert(m.skin_seq()[d.skin.unwrap() as int].joints@.len() <= m.joint_capacity());
    }
}

/// The outcome `o` is that of drawing the drawable `d`: a refusal for a
/// billboard kept upright, its command for every other drawable.
pub open spec fn is_outcome_of<S: Scalar>(
    o: Result<DrawCommand<S>, RenderError>,
    tree: HierarchyView<S>,
    d: GltfDrawable<S>,
    meshes: Seq<GltfMesh>,
    skins: Seq<GltfSkin<S>>,
    object_world: Mat4<S>,
    view: Mat4<S>,
) -> bool {
    match o {
        Ok(c) => !refused(meshes[d.mesh as int]) && is_command_of(c, tree, d, meshes, skins, object_world, view),
        Err(e) => e == RenderError::UprightBillboard && refused(meshes[d.mesh as int]),
    }
}

/// Whether reading the world transforms of the first `k` joints of a skin
/// refreshes the cache of the node `j`: it does where `j` is one of those
/// joints' nodes or lies above one.
pub open spec fn skin_refreshes<S: Scalar>(tree: HierarchyView<S>, skin: GltfSkin<S>, k: int, j: int) -> bool {
    exists|q: int| 0 <= q < k && tree.is_descendant((#[trigger] skin.joints@[q]).transform as int, j)
}

/// Whether drawing the drawable `d` refreshes the cache of the node `j`: a
/// drawable that is refused reads nothing; every other reads the world
/// transform of its own node, or of the root, and of each joint of its
/// skin.
pub open spec fn draw_refreshes<S: Scalar>(
    tree: HierarchyView<S>,
    d: GltfDrawable<S>,
    meshes: Seq<GltfMesh>,
    skins: Seq<GltfSkin<S>>,
    j: int,
) -> bool {
    &&& !refused(meshes[d.mesh as int])
    &&& {
        ||| tree.is_descendant(
            match d.transform {
                Some(h) => h as int,
                None => 0,
            },
            j,
        )
        ||| d.skin is Some && skin_refreshes(
            tree,
            skins[d.skin.unwrap() as int],
            skins[d.skin.unwrap() as int].joints@.len() as int,
            j,
        )
    }
}

/// Whether drawing the first `k` drawables refreshes the cache of the node
/// `j`.
pub open spec fn frame_refreshes<S: Scalar>(
    tree: HierarchyView<S>,
    drawables: Seq<GltfDrawable<S>>,
    meshes: Seq<GltfMesh>,
    skins: Seq<GltfSkin<S>>,
    k: int,
    j: int,
) -> bool {
    exists|i: int| 0 <= i < k && draw_refreshes(tree, #[trigger] drawables[i], meshes, skins, j)
}

/// The outcome `o` is that of drawing the drawable `d` with the global
/// parameter block `block`: the view matrix is the block's, and the block
/// is to be sent exactly if writing the drawable's values changes it or it
/// was already due.
pub open spec fn is_frame_outcome_of<S: Scalar>(
    o: Result<DrawCommand<S>, RenderError>,
    tree: HierarchyView<S>,
    d: GltfDrawable<S>,
    meshes: Seq<GltfMesh>,
    skins: Seq<GltfSkin<S>>,
    object_world: Mat4<S>,
    block: GlobalParamsView<S>,
) -> bool {
    &&& is_outcome_of(o, tree, d, meshes, skins, object_world, block.mat_view)
    &&& match o {
        Ok(c) => c.upload_global == block.must_send(c.model_matrix, c.lighting_strength),
        Err(_) => true,
    }
}

/// The global parameter block after the first `k` drawables of a frame: a
/// drawable that is refused leaves it as it is, every other drawable
/// leaves its model matrix and lighting strength in it, sent.
pub open spec fn block_after<S: Scalar>(
    tree: HierarchyView<S>,
    drawables: Seq<GltfDrawable<S>>,
    meshes: Seq<GltfMesh>,
    object_world: Mat4<S>,
    block: GlobalParamsView<S>,
    k: int,
) -> GlobalParamsView<S>
    decreases k,
{
    if k <= 0 {
        block
    } else {
        let before = block_after(tree, drawables, meshes, object_world, block, k - 1);
        let d = drawables[k - 1];
        if refused(meshes[d.mesh as int]) {
            before
        } else {
            before.drawn(
                model_matrix(tree, d, meshes[d.mesh as int], object_world, before.mat_view),
                d.parsed_extras.lighting_strength,
            )
        }
    }
}

/// A frame leaves the view matrix of the global parameter block alone.
pub proof fn lemma_frame_keeps_view<S: Scalar>(
    tree: HierarchyView<S>,
    drawables: Seq<GltfDrawable<S>>,
    meshes: Seq<GltfMesh>,
    object_world: Mat4<S>,
    block: GlobalParamsView<S>,
    k: int,
)
    ensures
        block_after(tree, drawables, meshes, object_world, block, k).mat_view == block.mat_view,
    decreases k,
{
    if k > 0 {
        lemma_frame_keeps_view(tree, drawables, meshes, object_world, block, k - 1);
    }
}

/// Plans every texture of an asset, in order.
pub fn load_textures(textures: &Vec<SourceTexture>, image_count: usize, config: &ImportConfig) -> (r: Result<
    Vec<TexturePlan>,
    ImportError,
>)
    ensures
        match r {
            Ok(ps) => first_fault(texture_faults(textures@, image_count as int), textures@.len() as int) is None
                && ps@ == Seq::new(textures@.len(), |i: int| texture_plan(textures@[i], *config)),
            Err(e) => first_fault(texture_faults(textures@, image_count as int), textures@.len() as int) == Some(
                e,
            ),
        },
{
    let ghost faults = texture_faults(textures@, image_count as int);
    let mut plans: Vec<TexturePlan> = Vec::new();
    let mut i: usize = 0;
    while i < textures.len()
        invariant
            i <= textures@.len(),
            faults == texture_faults(textures@, image_count as int),
            first_fault(faults, i as int) is None,
            plans@ == Seq::new(i as nat, |k: int| texture_plan(textures@[k], *config)),
        decreases textures@.len() - i,
    {
        match load_texture(&textures[i], image_count, config) {
            Ok(plan) => {
                plans.push(plan);
                proof {
                    assert(faults[i as int] is None);
                    assert(plans@ =~= Seq::new((i + 1) as nat, |k: int| texture_plan(textures@[k], *config)));
                }
            },
            Err(e) => {
                proof {
                    assert(faults[i as int] == Some(e));
                    lemma_first_fault_persists(faults, i as int + 1, textures@.len() as int);
                }
                return Err(e);
            },
        }
        i = i + 1;
    }
    Ok(plans)
}

/// The meshes `gs` are those of the first `k` declarations.
pub open spec fn are_meshes_of(gs: Seq<GltfMesh>, meshes: Seq<SourceMesh>, k: int) -> bool {
    &&& gs.len() == k
    &&& forall|i: int| 0 <= i < k ==> is_mesh_of(#[trigger] gs[i], meshes[i])
}

/// The skins `gs` are those of the first `k` declarations.
pub open spec fn are_skins_of<S: Scalar>(
    gs: Seq<GltfSkin<S>>,
    skins: Seq<SourceSkin<S>>,
    index: Map<usize, usize>,
    k: int,
) -> bool {
    &&& gs.len() == k
    &&& forall|i: int| 0 <= i < k ==> is_skin_of(#[trigger] gs[i], skins[i], index)
}

/// Loads every mesh of an asset, in order.
pub fn load_meshes(meshes: &Vec<SourceMesh>, material_count: usize) -> (r: Result<Vec<GltfMesh>, ImportError>)
    ensures
        match r {
            Ok(gs) => first_fault(mesh_faults(meshes@, material_count as int), meshes@.len() as int) is None
                && are_meshes_of(gs@, meshes@, meshes@.len() as int),
            Err(e) => first_fault(mesh_faults(meshes@, material_count as int), meshes@.len() as int) == Some(e),
        },
{
    let ghost faults = mesh_faults(meshes@, material_count as int);
    let mut loaded: Vec<GltfMesh> = Vec::new();
    let mut i: usize = 0;
    while i < meshes.len()
        invariant
            i <= meshes@.len(),
            faults == mesh_faults(meshes@, material_count as int),
            first_fault(faults, i as int) is None,
            are_meshes_of(loaded@, meshes@, i as int),
        decreases meshes@.len() - i,
    {
        let ghost before = loaded@;
        match load_mesh(&meshes[i], material_count) {
            Ok(g) => {
                loaded.push(g);
                proof {
                    assert(faults[i as int] is None);
                    assert forall|k: int| 0 <= k < i + 1 implies is_mesh_of(#[trigger] loaded@[k], meshes@[k]) by {
                        if k < i {
                            assert(loaded@[k] == before[k]);
                        }
                    }
                }
            },
            Err(e) => {
                proof {
                    assert(faults[i as int] == Some(e));
                    lemma_first_fault_persists(faults, i as int + 1, meshes@.len() as int);
                }
                return Err(e);
            },
        }
        i = i + 1;
    }
    Ok(loaded)
}

/// Loads every skin of an asset, in order.
pub fn load_skins<S: Scalar>(
    skins: &Vec<SourceSkin<S>>,
    transform_hierarchy: &GltfTransformHierarchy<S>,
    max_joints: usize,
) -> (r: Result<Vec<GltfSkin<S>>, ImportError>)
    ensures
        match r {
            Ok(gs) => first_fault(
                skin_faults(skins@, transform_hierarchy@.index, max_joints as int),
                skins@.len() as int,
            ) is None && are_skins_of(gs@, skins@, transform_hierarchy@.index, skins@.len() as int),
            Err(e) => first_fault(
                skin_faults(skins@, transform_hierarchy@.index, max_joints as int),
                skins@.len() as int,
            ) == Some(e),
        },
{
    let ghost faults = skin_faults(skins@, transform_hierarchy@.index, max_joints as int);
    let mut loaded: Vec<GltfSkin<S>> = Vec::new();
    let mut i: usize = 0;
    while i < skins.len()
        invariant
            i <= skins@.len(),
            faults == skin_faults(skins@, transform_hierarchy@.index, max_joints as int),
            first_fault(faults, i as int) is None,
            are_skins_of(loaded@, skins@, transform_hierarchy@.index, i as int),
        decreases skins@.len() - i,
    {
        let ghost before = loaded@;
        match load_skin(&skins[i], transform_hierarchy, max_joints) {
            Ok(g) => {
                loaded.push(g);
                proof {
                    assert(faults[i as int] is None);
                    assert forall|k: int| 0 <= k < i + 1 implies is_skin_of(
                        #[trigger] loaded@[k],
                        skins@[k],
                        transform_hierarchy@.index,
                    ) by {
                        if k < i {
                            assert(loaded@[k] == before[k]);
                        }
                    }
                }
            },
            Err(e) => {
                proof {
                    assert(faults[i as int] == Some(e));
                    lemma_first_fault_persists(faults, i as int + 1, skins@.len() as int);
                }
                return Err(e);
            },
        }
        i = i + 1;
    }
    Ok(loaded)
}

/// The hierarchy of a list of nodes finds each node under its index and
/// nothing else.
pub proof fn lemma_index_of_hierarchy<S: Scalar>(v: HierarchyView<S>, nodes: Seq<SourceNode<S>>)
    requires
        is_hierarchy_of(v, nodes, nodes.len() as int),
    ensures
        v.index == index_of(nodes),
{
    let n = nodes.len() as int;
    assert forall|key: usize| v.index.contains_key(key) == index_of(nodes).contains_key(key) by {
        if declares(nodes, n, key) {
            let i = choose|i: int| 0 <= i < n && (#[trigger] nodes[i]).index == key;
            assert(leads_to(v.index, nodes[i].index, i + 1));
        }
    }
    assert forall|key: usize| v.index.contains_key(key) implies v.index[key] == index_of(nodes)[key] by {
        let i = choose|i: int| 0 <= i < nodes.len() && (#[trigger] nodes[i]).index == key;
        assert(leads_to(v.index, nodes[i].index, i + 1));
    }
    assert(v.index =~= index_of(nodes));
}

/// The model `m` is the model of the asset `doc` under `config`.
pub open spec fn is_model_of<S: Scalar>(m: GltfModel<S>, doc: SourceDocument<S>, config: ImportConfig) -> bool {
    &&& flattened(doc.nodes@, doc.roots@) is Ok
    &&& is_model_of_nodes(m, flattened(doc.nodes@, doc.roots@).unwrap(), doc, config)
}

/// The model `m` is the model of the asset `doc`, whose nodes are listed as
/// `nodes`, under `config`.
pub open spec fn is_model_of_nodes<S: Scalar>(
    m: GltfModel<S>,
    nodes: Seq<SourceNode<S>>,
    doc: SourceDocument<S>,
    config: ImportConfig,
) -> bool {
    let index = m.tree()@.index;
    &&& is_hierarchy_of(m.tree()@, nodes, nodes.len() as int)
    &&& m.texture_seq() == Seq::new(doc.textures@.len(), |i: int| texture_plan(doc.textures@[i], config))
    &&& are_meshes_of(m.mesh_seq(), doc.meshes@, doc.meshes@.len() as int)
    &&& are_skins_of(m.skin_seq(), doc.skins@, index, doc.skins@.len() as int)
    &&& are_animations_of(m.animation_seq(), doc.animations@, index, doc.animations@.len() as int)
    &&& is_scene_of(m.drawable_seq(), m.light_seq(), nodes, doc.meshes@, index, nodes.len() as int)
    &&& m.joint_capacity() == config.max_joints
}

impl<S: Scalar> GltfModel<S> {
    /// The transform hierarchy.
    pub closed spec fn tree(self) -> GltfTransformHierarchy<S> {
        self.transform_hierarchy
    }

    /// The texture plans, in the order of the asset's textures.
    pub closed spec fn texture_seq(self) -> Seq<TexturePlan> {
        self.textures@
    }

    /// The meshes, in the order of the asset's meshes.
    pub closed spec fn mesh_seq(self) -> Seq<GltfMesh> {
        self.meshes@
    }

    /// The skins, in the order of the asset's skins.
    pub closed spec fn skin_seq(self) -> Seq<GltfSkin<S>> {
        self.skins@
    }

    /// The drawables, in the order of the nodes.
    pub closed spec fn drawable_seq(self) -> Seq<GltfDrawable<S>> {
        self.drawables@
    }

    /// The lights, in the order of the nodes.
    pub closed spec fn light_seq(self) -> Seq<GltfLight<S>> {
        self.lights@
    }

    /// The animations, in the order of the asset's animations.
    pub closed spec fn animation_seq(self) -> Seq<GltfAnimation> {
        self.animations@
    }

    /// The number of joints that the joint block of the GPU takes.
    pub closed spec fn joint_capacity(self) -> usize {
        self.max_joints
    }

    /// The hierarchy is sound, every drawable and every joint names a
    /// transform, a mesh and a skin that exist, and no skin has more joints
    /// than the joint block takes.
    pub open spec fn wf(self) -> bool {
        &&& self.tree().wf()
        &&& forall|s: int|
            0 <= s < self.skin_seq().len() ==> (#[trigger] self.skin_seq()[s]).joints@.len()
                <= self.joint_capacity()
        &&& scene_in_range(self.drawable_seq(), self.mesh_seq().len() as int, self.skin_seq().len() as int)
        &&& forall|t: int|
            0 <= t < self.drawable_seq().len() && (#[trigger] self.drawable_seq()[t]).transform is Some
                ==> self.drawable_seq()[t].transform.unwrap() < self.tree()@.locals.len()
        &&& forall|s: int, j: int|
            0 <= s < self.skin_seq().len() && 0 <= j < self.skin_seq()[s].joints@.len() ==> (
            #[trigger] self.skin_seq()[s].joints@[j]).transform < self.tree()@.locals.len()
    }

    /// Everything but the cached world transforms is as in `other`.
    pub open spec fn same_as(self, other: GltfModel<S>) -> bool {
        &&& self.tree()@ == other.tree()@
        &&& self.texture_seq() == other.texture_seq()
        &&& self.mesh_seq() == other.mesh_seq()
        &&& self.skin_seq() == other.skin_seq()
        &&& self.drawable_seq() == other.drawable_seq()
        &&& self.light_seq() == other.light_seq()
        &&& self.animation_seq() == other.animation_seq()
        &&& self.joint_capacity() == other.joint_capacity()
    }

    /// Builds the model of an asset, or nothing: the first fault, in the
    /// order of the stages, abandons the import.
    pub fn import(doc: &SourceDocument<S>, config: &ImportConfig) -> (r: Result<GltfModel<S>, ImportError>)
        ensures
            match r {
                Ok(m) => import_fault(*doc, *config) is None && m.wf() && is_model_of(m, *doc, *config)
                    && m.tree().dirty_flags() == Seq::new(m.tree()@.locals.len(), |j: int| j != 0),
                Err(e) => import_fault(*doc, *config) == Some(e),
            },
    {
        let nodes = match flatten(&doc.nodes, &doc.roots) {
            Ok(list) => list,
            Err(e) => {
                return Err(e);
            },
        };
        let transform_hierarchy = match build_hierarchy(&nodes) {
            Ok(h) => h,
            Err(e) => {
                return Err(e);
            },
        };
        proof {
            lemma_index_of_hierarchy(transform_hierarchy@, nodes@);
        }
        let textures = match load_textures(&doc.textures, doc.image_count, config) {
            Ok(t) => t,
            Err(e) => {
                return Err(e);
            },
        };
        let meshes = match load_meshes(&doc.meshes, doc.material_count) {
            Ok(m) => m,
            Err(e) => {
                return Err(e);
            },
        };
        let skins = match load_skins(&doc.skins, &transform_hierarchy, config.max_joints) {
            Ok(s) => s,
            Err(e) => {
                return Err(e);
            },
        };
        let animations = match load_animations(&doc.animations, &transform_hierarchy) {
            Ok(a) => a,
            Err(e) => {
                return Err(e);
            },
        };
        let (drawables, lights) = match build_scene(&nodes, &transform_hierarchy, &doc.meshes, doc.skins.len()) {
            Ok(scene) => scene,
            Err(e) => {
                return Err(e);
            },
        };
        let m = GltfModel {
            transform_hierarchy,
            textures,
            meshes,
            skins,
            drawables,
            lights,
            animations,
            max_joints: config.max_joints,
        };
        proof {
            let index = m.tree()@.index;
            assert forall|s: int| 0 <= s < m.skin_seq().len() implies (#[trigger] m.skin_seq()[s]).joints@.len()
                <= m.joint_capacity() by {
                crate::resources::lemma_no_fault(
                    skin_faults(doc.skins@, index, config.max_joints as int),
                    doc.skins@.len() as int,
                    s,
                );
                assert(is_skin_of(m.skin_seq()[s], doc.skins@[s], index));
            }
            assert forall|t: int|
                0 <= t < m.drawable_seq().len() && (#[trigger] m.drawable_seq()[t]).transform is Some implies m.drawable_seq()[t].transform.unwrap()
                < m.tree()@.locals.len() by {
                let k = m.drawable_seq()[t].transform.unwrap();
                let pos = crate::scene::mesh_nodes(nodes@, nodes@.len() as int)[t];
                assert(crate::scene::is_drawable_of(m.drawable_seq()[t], nodes@, doc.meshes@, index, pos));
                assert(index.contains_key(nodes@[pos].index));
            }
            assert forall|s: int, j: int|
                0 <= s < m.skin_seq().len() && 0 <= j < m.skin_seq()[s].joints@.len() implies (
            #[trigger] m.skin_seq()[s].joints@[j]).transform < m.tree()@.locals.len() by {
                let g = m.skin_seq()[s];
                assert(is_skin_of(g, doc.skins@[s], index));
                assert(g.joints@[j].transform == index[doc.skins@[s].joints@[j].node]);
                assert(index.contains_key(doc.skins@[s].joints@[j].node));
            }
        }
        Ok(m)
    }

    /// Gives the model's root the local transform `transform`; the root's
    /// world transform is then `transform`.
    pub fn set_transform(&mut self, transform: &Mat4<S>)
        requires
            old(self).wf(),
        ensures
            final(self).wf(),
            final(self).tree()@ == old(self).tree()@.with_local(0, *transform),
            final(self).tree()@.world(0) == *transform,
            final(self).texture_seq() == old(self).texture_seq(),
            final(self).mesh_seq() == old(self).mesh_seq(),
            final(self).skin_seq() == old(self).skin_seq(),
            final(self).drawable_seq() == old(self).drawable_seq(),
            final(self).light_seq() == old(self).light_seq(),
            final(self).animation_seq() == old(self).animation_seq(),
            final(self).joint_capacity() == old(self).joint_capacity(),
    {
        self.transform_hierarchy.set_transform(*transform);
    }

    /// Gives the node with the handle `h` the local transform `transform`,
    /// as an animation does; the world transforms of the node and of
    /// everything below it follow.
    pub fn set_local_transform(&mut self, h: usize, transform: &Mat4<S>)
        requires
            old(self).wf(),
            h < old(self).tree()@.locals.len(),
        ensures
            final(self).wf(),
            final(self).tree()@ == old(self).tree()@.with_local(h as int, *transform),
            final(self).tree().dirty_flags() == Seq::new(
                old(self).tree()@.locals.len(),
                |j: int| old(self).tree().dirty_flags()[j] || old(self).tree()@.is_descendant(j, h as int),
            ),
            final(self).texture_seq() == old(self).texture_seq(),
            final(self).mesh_seq() == old(self).mesh_seq(),
            final(self).skin_seq() == old(self).skin_seq(),
            final(self).drawable_seq() == old(self).drawable_seq(),
            final(self).light_seq() == old(self).light_seq(),
            final(self).animation_seq() == old(self).animation_seq(),
            final(self).joint_capacity() == old(self).joint_capacity(),
    {
        self.transform_hierarchy.set_local_transform(h, *transform);
    }

    /// The world transform of the node with the handle `h`.
    pub fn world_transform(&mut self, h: usize) -> (r: Mat4<S>)
        requires
            old(self).wf(),
            h < old(self).tree()@.locals.len(),
        ensures
            final(self).wf(),
            final(self).same_as(*old(self)),
            r == old(self).tree()@.world(h as int),
            final(self).tree().dirty_flags() == Seq::new(
                old(self).tree()@.locals.len(),
                |j: int| old(self).tree().dirty_flags()[j] && !old(self).tree()@.is_descendant(h as int, j),
            ),
    {
        self.transform_hierarchy.world_transform(h)
    }

    /// The transform hierarchy.
    pub fn transform_hierarchy(&self) -> (r: &GltfTransformHierarchy<S>)
        ensures
            *r == self.tree(),
    {
        &self.transform_hierarchy
    }

    /// The drawables.
    pub fn drawables(&self) -> (r: &Vec<GltfDrawable<S>>)
        ensures
            r@ == self.drawable_seq(),
    {
        &self.drawables
    }

    /// The lights.
    pub fn lights(&self) -> (r: &Vec<GltfLight<S>>)
        ensures
            r@ == self.light_seq(),
    {
        &self.lights
    }

    /// The animations.
    pub fn animations(&self) -> (r: &Vec<GltfAnimation>)
        ensures
            r@ == self.animation_seq(),
    {
        &self.animations
    }

    /// The meshes.
    pub fn meshes(&self) -> (r: &Vec<GltfMesh>)
        ensures
            r@ == self.mesh_seq(),
    {
        &self.meshes
    }

    /// The skins.
    pub fn skins(&self) -> (r: &Vec<GltfSkin<S>>)
        ensures
            r@ == self.skin_seq(),
    {
        &self.skins
    }

    /// The number of joints that the joint block of the GPU takes.
    pub fn max_joints(&self) -> (r: usize)
        ensures
            r == self.joint_capacity(),
    {
        self.max_joints
    }

    /// The texture plans.
    pub fn textures(&self) -> (r: &Vec<TexturePlan>)
        ensures
            r@ == self.texture_seq(),
    {
        &self.textures
    }

    /// The position of the animation with the name `name`, if there is one.
    pub fn animation(&self, name: &String) -> (r: Option<usize>)
        ensures
            match r {
                Some(i) => i < self.animation_seq().len() && self.animation_seq()[i as int].name@ == name@
                    && forall|j: int| 0 <= j < i ==> (#[trigger] self.animation_seq()[j]).name@ != name@,
                None => forall|j: int|
                    0 <= j < self.animation_seq().len() ==> (#[trigger] self.animation_seq()[j]).name@ != name@,
            },
    {
        let mut i: usize = 0;
        while i < self.animations.len()
            invariant
                i <= self.animations@.len(),
                forall|j: int| 0 <= j < i ==> (#[trigger] self.animations@[j]).name@ != name@,
            decreases self.animations@.len() - i,
        {
            if self.animations[i].name == *name {
                return Some(i);
            }
            i = i + 1;
        }
        None
    }

    /// What is drawn for the drawable at `i` in a frame with the object's
    /// world transform `object_world`; the camera's view matrix is read
    /// from the global parameter block, and the drawable's model matrix
    /// and lighting strength are written to it. World transforms that were
    /// stale are refreshed on the way. A drawable that is refused leaves
    /// the block as it was.
    pub fn draw(&mut self, i: usize, object_world: &Mat4<S>, ubo_global: &mut GlobalParams<S>) -> (r: Result<
        DrawCommand<S>,
        RenderError,
    >)
        requires
            old(self).wf(),
            i < old(self).drawable_seq().len(),
        ensures
            final(self).wf(),
            final(self).same_as(*old(self)),
            is_frame_outcome_of(
                r,
                old(self).tree()@,
                old(self).drawable_seq()[i as int],
                old(self).mesh_seq(),
                old(self).skin_seq(),
                *object_world,
                old(ubo_global)@,
            ),
            final(ubo_global)@ == match r {
                Ok(c) => old(ubo_global)@.drawn(c.model_matrix, c.lighting_strength),
                Err(_) => old(ubo_global)@,
            },
            final(self).tree().dirty_flags() == Seq::new(
                old(self).tree()@.locals.len(),
                |j: int|
                    old(self).tree().dirty_flags()[j] && !draw_refreshes(
                        old(self).tree()@,
                        old(self).drawable_seq()[i as int],
                        old(self).mesh_seq(),
                        old(self).skin_seq(),
                        j,
                    ),
            ),
    {
        let transform = self.drawables[i].transform;
        let mesh = self.drawables[i].mesh;
        let skin = self.drawables[i].skin;
        let lighting_strength = self.drawables[i].parsed_extras.lighting_strength;
        let is_billboard = self.meshes[mesh].is_billboard;
        let keep_upright = self.meshes[mesh].keep_upright;
        let ghost tree = self.tree()@;
        let ghost flags = self.tree().dirty_flags();
        let ghost d = self.drawables@[i as int];
        if is_billboard && keep_upright {
            proof {
                assert(self.tree().dirty_flags() =~= Seq::new(
                    tree.locals.len(),
                    |j: int| flags[j] && !draw_refreshes(tree, d, self.meshes@, self.skins@, j),
                ));
            }
            return Err(RenderError::UprightBillboard);
        }
        let handle = match transform {
            Some(h) => h,
            None => 0,
        };
        let world = self.transform_hierarchy.world_transform(handle);
        let model_mat = object_world.mul(&world);
        let model_matrix = if is_billboard {
            let view_mat = ubo_global.get_mat_view();
            match calc_billboard_matrix(&view_mat, &model_mat, keep_upright) {
                Ok(m) => m,
                Err(e) => {
                    return Err(e);
                },
            }
        } else {
            model_mat
        };
        ubo_global.set_mat_model(&model_matrix);
        ubo_global.set_lighting_strength(lighting_strength);
        let upload_global = ubo_global.upload_changed();
        let mut joint_mats: Vec<Mat4<S>> = Vec::new();
        if let Some(s) = skin {
            let n = self.skins[s].joints.len();
            let mut j: usize = 0;
            proof {
                assert(self.tree().dirty_flags() =~= Seq::new(
                    tree.locals.len(),
                    |k: int|
                        flags[k] && !(tree.is_descendant(handle as int, k) || skin_refreshes(
                            tree,
                            self.skins@[s as int],
                            0,
                            k,
                        )),
                ));
            }
            while j < n
                invariant
                    j <= n,
                    s < self.skins@.len(),
                    n == self.skins@[s as int].joints@.len(),
                    self.wf(),
                    self.same_as(*old(self)),
                    tree == old(self).tree()@,
                    flags == old(self).tree().dirty_flags(),
                    flags.len() == tree.locals.len(),
                    joint_mats@.len() == j,
                    forall|q: int|
                        0 <= q < j ==> (#[trigger] joint_mats@[q]) == joint_matrix(
                            self.tree()@,
                            self.skins@[s as int].joints@[q],
                            *object_world,
                        ),
                    self.tree().dirty_flags() == Seq::new(
                        tree.locals.len(),
                        |k: int|
                            flags[k] && !(tree.is_descendant(handle as int, k) || skin_refreshes(
                                tree,
                                self.skins@[s as int],
                                j as int,
                                k,
                            )),
                    ),
                decreases n - j,
            {
                let joint = self.skins[s].joints[j];
                let ghost skin_value = self.skins@[s as int];
                let joint_transform = self.transform_hierarchy.world_transform(joint.transform);
                let joint_world_transform = object_world.mul(&joint_transform);
                joint_mats.push(joint_world_transform.mul(&joint.inverse_bind_matrix));
                proof {
                    assert forall|k: int| 0 <= k < tree.locals.len() implies skin_refreshes(
                        tree,
                        skin_value,
                        j as int + 1,
                        k,
                    ) == (skin_refreshes(tree, skin_value, j as int, k) || tree.is_descendant(
                        joint.transform as int,
                        k,
                    )) by {
                        if skin_refreshes(tree, skin_value, j as int + 1, k) {
                            let q = choose|q: int|
                                0 <= q < j + 1 && tree.is_descendant(
                                    (#[trigger] skin_value.joints@[q]).transform as int,
                                    k,
                                );
                            if q < j {
                                assert(skin_refreshes(tree, skin_value, j as int, k));
                            }
                        }
                        if skin_refreshes(tree, skin_value, j as int, k) {
                            let q = choose|q: int|
                                0 <= q < j && tree.is_descendant((#[trigger] skin_value.joints@[q]).transform as int, k);
                            assert(tree.is_descendant(skin_value.joints@[q].transform as int, k));
                        }
                        if tree.is_descendant(joint.transform as int, k) {
                            assert(tree.is_descendant(skin_value.joints@[j as int].transform as int, k));
                        }
                    }
                    assert(self.tree().dirty_flags() =~= Seq::new(
                        tree.locals.len(),
                        |k: int|
                            flags[k] && !(tree.is_descendant(handle as int, k) || skin_refreshes(
                                tree,
                                skin_value,
                                j as int + 1,
                                k,
                            )),
                    ));
                }
                j = j + 1;
            }
            proof {
                assert(joint_mats@ =~= joint_matrices(self.tree()@, self.skins@[s as int], *object_world));
            }
        }
        proof {
            assert(self.tree().dirty_flags() =~= Seq::new(
                tree.locals.len(),
                |j: int| flags[j] && !draw_refreshes(tree, d, self.meshes@, self.skins@, j),
            ));
        }
        Ok(
            DrawCommand {
                mesh,
                upload_global,
                model_matrix,
                lighting_strength,
                skinning_enabled: skin.is_some(),
                joint_matrices: joint_mats,
            },
        )
    }

    /// One frame: the outcome of drawing each drawable, in order, with the
    /// global parameter block carried from one drawable to the next. A
    /// drawable that is refused is left out and the frame goes on.
    pub fn render(&mut self, object_world_transform: &Mat4<S>, ubo_global: &mut GlobalParams<S>) -> (r: Vec<
        Result<DrawCommand<S>, RenderError>,
    >)
        requires
            old(self).wf(),
        ensures
            final(self).wf(),
            final(self).same_as(*old(self)),
            r@.len() == old(self).drawable_seq().len(),
            forall|i: int|
                0 <= i < r@.len() ==> is_frame_outcome_of(
                    #[trigger] r@[i],
                    old(self).tree()@,
                    old(self).drawable_seq()[i],
                    old(self).mesh_seq(),
                    old(self).skin_seq(),
                    *object_world_transform,
                    block_after(
                        old(self).tree()@,
                        old(self).drawable_seq(),
                        old(self).mesh_seq(),
                        *object_world_transform,
                        old(ubo_global)@,
                        i,
                    ),
                ),
            final(ubo_global)@ == block_after(
                old(self).tree()@,
                old(self).drawable_seq(),
                old(self).mesh_seq(),
                *object_world_transform,
                old(ubo_global)@,
                r@.len() as int,
            ),
            final(self).tree().dirty_flags() == Seq::new(
                old(self).tree()@.locals.len(),
                |j: int|
                    old(self).tree().dirty_flags()[j] && !frame_refreshes(
                        old(self).tree()@,
                        old(self).drawable_seq(),
                        old(self).mesh_seq(),
                        old(self).skin_seq(),
                        r@.len() as int,
                        j,
                    ),
            ),
    {
        let mut outcomes: Vec<Result<DrawCommand<S>, RenderError>> = Vec::new();
        let n = self.drawables.len();
        let mut i: usize = 0;
        let ghost tree = self.tree()@;
        let ghost flags = self.tree().dirty_flags();
        let ghost ds = self.drawables@;
        let ghost ms = self.meshes@;
        let ghost ss = self.skins@;
        proof {
            assert(self.tree().dirty_flags() =~= Seq::new(
                tree.locals.len(),
                |j: int| flags[j] && !frame_refreshes(tree, ds, ms, ss, 0, j),
            ));
        }
        while i < n
            invariant
                i <= n,
                n == self.drawables@.len(),
                self.wf(),
                self.same_as(*old(self)),
                tree == old(self).tree()@,
                flags == old(self).tree().dirty_flags(),
                flags.len() == tree.locals.len(),
                ds == old(self).drawable_seq(),
                ms == old(self).mesh_seq(),
                ss == old(self).skin_seq(),
                self.tree().dirty_flags() == Seq::new(
                    tree.locals.len(),
                    |j: int| flags[j] && !frame_refreshes(tree, ds, ms, ss, i as int, j),
                ),
                outcomes@.len() == i,
                ubo_global@ == block_after(
                    old(self).tree()@,
                    old(self).drawable_seq(),
                    old(self).mesh_seq(),
                    *object_world_transform,
                    old(ubo_global)@,
                    i as int,
                ),
                forall|k: int|
                    0 <= k < i ==> is_frame_outcome_of(
                        #[trigger] outcomes@[k],
                        old(self).tree()@,
                        old(self).drawable_seq()[k],
                        old(self).mesh_seq(),
                        old(self).skin_seq(),
                        *object_world_transform,
                        block_after(
                            old(self).tree()@,
                            old(self).drawable_seq(),
                            old(self).mesh_seq(),
                            *object_world_transform,
                            old(ubo_global)@,
                            k,
                        ),
                    ),
            decreases n - i,
        {
            let ghost before = outcomes@;
            let outcome = self.draw(i, object_world_transform, ubo_global);
            outcomes.push(outcome);
            proof {
                assert forall|k: int| 0 <= k < i + 1 implies is_frame_outcome_of(
                    #[trigger] outcomes@[k],
                    old(self).tree()@,
                    old(self).drawable_seq()[k],
                    old(self).mesh_seq(),
                    old(self).skin_seq(),
                    *object_world_transform,
                    block_after(
                        old(self).tree()@,
                        old(self).drawable_seq(),
                        old(self).mesh_seq(),
                        *object_world_transform,
                        old(ubo_global)@,
                        k,
                    ),
                ) by {
                    if k < i {
                        assert(outcomes@[k] == before[k]);
                    }
                }
                assert forall|j: int| 0 <= j < tree.locals.len() implies frame_refreshes(
                    tree,
                    ds,
                    ms,
                    ss,
                    i as int + 1,
                    j,
                ) == (frame_refreshes(tree, ds, ms, ss, i as int, j) || draw_refreshes(
                    tree,
                    ds[i as int],
                    ms,
                    ss,
                    j,
                )) by {
                    if frame_refreshes(tree, ds, ms, ss, i as int + 1, j) {
                        let k = choose|k: int| 0 <= k < i + 1 && draw_refreshes(tree, #[trigger] ds[k], ms, ss, j);
                        if k < i {
                            assert(frame_refreshes(tree, ds, ms, ss, i as int, j));
                        }
                    }
                    if frame_refreshes(tree, ds, ms, ss, i as int, j) {
                        let k = choose|k: int| 0 <= k < i && draw_refreshes(tree, #[trigger] ds[k], ms, ss, j);
                        assert(draw_refreshes(tree, ds[k], ms, ss, j));
                    }
                }
                assert(self.tree().dirty_flags() =~= Seq::new(
                    tree.locals.len(),
                    |j: int| flags[j] && !frame_refreshes(tree, ds, ms, ss, i as int + 1, j),
                ));
            }
            i = i + 1;
        }
        outcomes
    }
}

/// Two imports of one asset under one configuration give the same number
/// of drawables and of lights, and the same animation names in the same
/// order.
pub proof fn lemma_import_repeatable<S: Scalar>(
    doc: SourceDocument<S>,
    config: ImportConfig,
    first: GltfModel<S>,
    second: GltfModel<S>,
)
    requires
        is_model_of(first, doc, config),
        is_model_of(second, doc, config),
    ensures
        first.drawable_seq().len() == second.drawable_seq().len(),
        first.light_seq().len() == second.light_seq().len(),
        first.animation_seq().len() == second.animation_seq().len(),
        forall|i: int|
            0 <= i < first.animation_seq().len() ==> (#[trigger] first.animation_seq()[i]).name@
                == second.animation_seq()[i].name@,
        first.tree()@.index == second.tree()@.index,
        first.texture_seq() == second.texture_seq(),
{
    let nodes = flattened(doc.nodes@, doc.roots@).unwrap();
    lemma_index_of_hierarchy(first.tree()@, nodes);
    lemma_index_of_hierarchy(second.tree()@, nodes);
    assert forall|i: int| 0 <= i < first.animation_seq().len() implies (#[trigger] first.animation_seq()[i]).name@
        == second.animation_seq()[i].name@ by {
        assert(crate::resources::is_animation_of(first.animation_seq()[i], doc.animations@[i], first.tree()@.index));
        assert(crate::resources::is_animation_of(second.animation_seq()[i], doc.animations@[i], second.tree()@.index));
    }
}

/// In the model of an asset all of whose nodes belong to a scene, the
/// hierarchy holds the root and one transform for each declared node, every
/// source index leads to a transform, no two lead to the same, and nothing
/// else does.
pub proof fn lemma_one_transform_per_node<S: Scalar>(m: GltfModel<S>, doc: SourceDocument<S>, config: ImportConfig)
    requires
        is_model_of(m, doc, config),
        forall|idx: usize|
            idx < doc.nodes@.len() ==> #[trigger] declares(
                flattened(doc.nodes@, doc.roots@).unwrap(),
                flattened(doc.nodes@, doc.roots@).unwrap().len() as int,
                idx,
            ),
    ensures
        m.tree()@.locals.len() == doc.nodes@.len() + 1,
        forall|idx: usize| idx < doc.nodes@.len() <==> #[trigger] m.tree()@.index.contains_key(idx),
        forall|a: usize, b: usize|
            a < doc.nodes@.len() && b < doc.nodes@.len() && a != b ==> #[trigger] m.tree()@.index[a]
                != #[trigger] m.tree()@.index[b],
{
    let list = flattened(doc.nodes@, doc.roots@).unwrap();
    let index = m.tree()@.index;
    assert(doc.nodes@.len() == doc.nodes.len());
    lemma_flattened_well_formed(doc.nodes@, doc.roots@);
    assert forall|idx: usize| idx < doc.nodes@.len() <==> #[trigger] index.contains_key(idx) by {
        if idx < doc.nodes@.len() {
            assert(declares(list, list.len() as int, idx));
            let i = choose|i: int| 0 <= i < list.len() && (#[trigger] list[i]).index == idx;
            assert(leads_to(index, list[i].index, i + 1));
        }
        if index.contains_key(idx) {
            assert(declares(list, list.len() as int, idx));
            let i = choose|i: int| 0 <= i < list.len() && (#[trigger] list[i]).index == idx;
            assert(list[i].index < doc.nodes@.len());
        }
    }
    assert forall|a: usize, b: usize|
        a < doc.nodes@.len() && b < doc.nodes@.len() && a != b implies #[trigger] index[a] != #[trigger] index[b] by {
        assert(declares(list, list.len() as int, a));
        assert(declares(list, list.len() as int, b));
        let i = choose|i: int| 0 <= i < list.len() && (#[trigger] list[i]).index == a;
        let j = choose|j: int| 0 <= j < list.len() && (#[trigger] list[j]).index == b;
        assert(leads_to(index, list[i].index, i + 1));
        assert(leads_to(index, list[j].index, j + 1));
    }
}

} // verus!
