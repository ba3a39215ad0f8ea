use vstd::prelude::*;
use crate::scalar::Scalar;
use crate::matrix::{Mat4, Vec3};
use crate::error::ImportError;
use crate::transform::GltfTransformHierarchy;

verus! {

/// The metadata of a node that the renderer reads.
#[derive(Clone, Copy, Debug)]
pub struct GltfNodeExtras<S: Scalar> {
    pub lighting_strength: S,
}

impl<S: Scalar> Default for GltfNodeExtras<S> {
    /// Full lighting strength.
    fn default() -> (r: Self)
        ensures
            r == (GltfNodeExtras { lighting_strength: S::one_value() }),
    {
        GltfNodeExtras { lighting_strength: S::one() }
    }
}

/// The metadata a node declares: its text as the asset holds it, and what
/// was read from that text, if it could be read.
pub struct SourceExtras<S: Scalar> {
    pub raw: String,
    pub parsed: Option<GltfNodeExtras<S>>,
}

/// The kind of a declared light, with the cone of a spot.
#[derive(Clone, Copy)]
pub enum SourceLightKind<S: Scalar> {
    Directional,
    Point,
    Spot { inner_cone_angle: S, outer_cone_angle: S },
}

/// A light as the asset declares it.
#[derive(Clone, Copy)]
pub struct SourceLight<S: Scalar> {
    pub kind: SourceLightKind<S>,
    pub color: Vec3<S>,
    pub intensity: S,
    pub range: Option<S>,
}

/// One node of the asset's scene graph. The nodes of an asset are listed
/// parents first, in the order of a depth-first walk; `parent` is a position
/// in that list, `index` the number the asset gives the node.
pub struct SourceNode<S: Scalar> {
    pub index: usize,
    pub parent: Option<usize>,
    pub local: Mat4<S>,
    pub mesh: Option<usize>,
    pub skin: Option<usize>,
    pub light: Option<SourceLight<S>>,
    pub extras: Option<SourceExtras<S>>,
}

/// A mesh definition as far as the scene reads it.
pub struct SourceMesh {
    pub name: Option<String>,
    pub is_billboard: bool,
    pub keep_upright: bool,
    /// For each primitive, the material it declares.
    pub primitive_materials: Vec<Option<usize>>,
}

/// The tag of a light.
#[derive(Clone, Copy, Debug, PartialEq, Eq, Structural)]
pub enum LightType {
    DirectionalLight,
    PointLight,
    SpotLight,
}

/// A light of the scene.
#[derive(Clone, Copy)]
pub struct GltfLight<S: Scalar> {
    pub transform: Option<usize>,
    pub light_type: LightType,
    pub color: Vec3<S>,
    pub intensity: S,
    pub range: Option<S>,
    pub inner_cone_angle: Option<S>,
    pub outer_cone_angle: Option<S>,
}

/// A single drawable: a transform, a mesh, and optionally a skin.
pub struct GltfDrawable<S: Scalar> {
    pub name: String,
    pub transform: Option<usize>,
    pub mesh: usize,
    pub skin: Option<usize>,
    pub parsed_extras: GltfNodeExtras<S>,
    pub raw_extras: Option<String>,
}

/// Whether the node at `i` names a parent that precedes it.
pub open spec fn has_parent<S: Scalar>(nodes: Seq<SourceNode<S>>, i: int) -> bool {
    0 <= i < nodes.len() && nodes[i].parent is Some && nodes[i].parent.unwrap() < i
}

/// Whether the node at `j` is the node at `c` or lies below it.
pub open spec fn is_under<S: Scalar>(nodes: Seq<SourceNode<S>>, j: int, c: int) -> bool
    decreases j,
{
    j == c || (has_parent(nodes, j) && is_under(nodes, nodes[j].parent.unwrap() as int, c))
}

/// The position of the node whose metadata applies to the node at `i`: the
/// node itself where it declares metadata, else what applies to its parent.
pub open spec fn extras_source<S: Scalar>(nodes: Seq<SourceNode<S>>, i: int) -> Option<int>
    decreases i,
{
    if 0 <= i < nodes.len() && nodes[i].extras is Some {
        Some(i)
    } else if has_parent(nodes, i) {
        extras_source(nodes, nodes[i].parent.unwrap() as int)
    } else {
        None
    }
}

/// The metadata that applies to the node at `i`, if any does.
pub open spec fn effective_extras<S: Scalar>(nodes: Seq<SourceNode<S>>, i: int) -> Option<
    SourceExtras<S>,
> {
    match extras_source(nodes, i) {
        Some(j) => nodes[j].extras,
        None => None,
    }
}

/// What a drawable at node `i` reads of its metadata: the applying
/// metadata as read, or the default where none applies.
pub open spec fn effective_parsed<S: Scalar>(nodes: Seq<SourceNode<S>>, i: int) -> GltfNodeExtras<S> {
    match effective_extras(nodes, i) {
        Some(e) => e.parsed.unwrap(),
        None => GltfNodeExtras { lighting_strength: S::one_value() },
    }
}

/// The text of the metadata that applies to the node at `i`.
pub open spec fn effective_raw<S: Scalar>(nodes: Seq<SourceNode<S>>, i: int) -> Option<String> {
    match effective_extras(nodes, i) {
        Some(e) => Some(e.raw),
        None => None,
    }
}

/// The handle registered under a source index, if any.
pub open spec fn lookup(index: Map<usize, usize>, k: usize) -> Option<usize> {
    if index.contains_key(k) {
        Some(index[k])
    } else {
        None
    }
}

/// The name a drawable takes from its mesh.
pub open spec fn mesh_name(mesh: SourceMesh) -> Seq<char> {
    match mesh.name {
        Some(n) => n@,
        None => Seq::<char>::empty(),
    }
}

/// The positions below `k` of the nodes that carry a mesh, in order.
pub open spec fn mesh_nodes<S: Scalar>(nodes: Seq<SourceNode<S>>, k: int) -> Seq<int>
    decreases k,
{
    if k <= 0 {
        Seq::<int>::empty()
    } else if nodes[k - 1].mesh is Some {
        mesh_nodes(nodes, k - 1).push(k - 1)
    } else {
        mesh_nodes(nodes, k - 1)
    }
}

/// The positions below `k` of the nodes that carry a light, in order.
pub open spec fn light_nodes<S: Scalar>(nodes: Seq<SourceNode<S>>, k: int) -> Seq<int>
    decreases k,
{
    if k <= 0 {
        Seq::<int>::empty()
    } else if nodes[k - 1].light is Some {
        light_nodes(nodes, k - 1).push(k - 1)
    } else {
        light_nodes(nodes, k - 1)
    }
}

/// What stops the scene at the node at `i`: a mesh or skin that does not
/// exist, or applying metadata that could not be read. Only a node with a
/// mesh can stop it.
pub open spec fn node_fault<S: Scalar>(
    nodes: Seq<SourceNode<S>>,
    i: int,
    mesh_count: int,
    skin_count: int,
) -> Option<ImportError> {
    if nodes[i].mesh is None {
        None
    } else if nodes[i].mesh.unwrap() >= mesh_count {
        Some(ImportError::Reference)
    } else if nodes[i].skin is Some && nodes[i].skin.unwrap() >= skin_count {
        Some(ImportError::Reference)
    } else if effective_extras(nodes, i) is Some && effective_extras(nodes, i).unwrap().parsed is None {
        Some(ImportError::Metadata)
    } else {
        None
    }
}

/// The first fault among the nodes below `k`.
pub open spec fn scene_fault<S: Scalar>(
    nodes: Seq<SourceNode<S>>,
    k: int,
    mesh_count: int,
    skin_count: int,
) -> Option<ImportError>
    decreases k,
{
    if k <= 0 {
        None
    } else if scene_fault(nodes, k - 1, mesh_count, skin_count) is Some {
        scene_fault(nodes, k - 1, mesh_count, skin_count)
    } else {
        node_fault(nodes, k - 1, mesh_count, skin_count)
    }
}

/// The drawable of the node at `i`.
pub open spec fn is_drawable_of<S: Scalar>(
    d: GltfDrawable<S>,
    nodes: Seq<SourceNode<S>>,
    meshes: Seq<SourceMesh>,
    index: Map<usize, usize>,
    i: int,
) -> bool {
    &&& nodes[i].mesh is Some
    &&& d.mesh == nodes[i].mesh.unwrap()
    &&& d.name@ == mesh_name(meshes[d.mesh as int])
    &&& d.transform == lookup(index, nodes[i].index)
    &&& d.skin == nodes[i].skin
    &&& d.parsed_extras == effective_parsed(nodes, i)
    &&& d.raw_extras == effective_raw(nodes, i)
}

/// The light of a node whose transform is `transform`.
pub open spec fn light_of<S: Scalar>(light: SourceLight<S>, transform: Option<usize>) -> GltfLight<S> {
    GltfLight {
        transform,
        light_type: match light.kind {
            SourceLightKind::Directional => LightType::DirectionalLight,
            SourceLightKind::Point => LightType::PointLight,
            SourceLightKind::Spot { .. } => LightType::SpotLight,
        },
        color: light.color,
        intensity: light.intensity,
        range: light.range,
        inner_cone_angle: match light.kind {
            SourceLightKind::Spot { inner_cone_angle, .. } => Some(inner_cone_angle),
            _ => None,
        },
        outer_cone_angle: match light.kind {
            SourceLightKind::Spot { outer_cone_angle, .. } => Some(outer_cone_angle),
            _ => None,
        },
    }
}

/// The drawables `ds` and lights `ls` are those of the nodes below `k`.
pub open spec fn is_scene_of<S: Scalar>(
    ds: Seq<GltfDrawable<S>>,
    ls: Seq<GltfLight<S>>,
    nodes: Seq<SourceNode<S>>,
    meshes: Seq<SourceMesh>,
    index: Map<usize, usize>,
    k: int,
) -> bool {
    &&& ds.len() == mesh_nodes(nodes, k).len()
    &&& forall|t: int|
        0 <= t < ds.len() ==> is_drawable_of(#[trigger] ds[t], nodes, meshes, index, mesh_nodes(nodes, k)[t])
    &&& ls.len() == light_nodes(nodes, k).len()
    &&& forall|t: int|
        0 <= t < ls.len() ==> #[trigger] ls[t] == light_of(
            nodes[light_nodes(nodes, k)[t]].light.unwrap(),
            lookup(index, nodes[light_nodes(nodes, k)[t]].index),
        )
}

/// Every drawable names a mesh and a skin that exist.
pub open spec fn scene_in_range<S: Scalar>(ds: Seq<GltfDrawable<S>>, mesh_count: int, skin_count: int) -> bool {
    forall|t: int|
        0 <= t < ds.len() ==> (#[trigger] ds[t]).mesh < mesh_count && (ds[t].skin is Some
            ==> ds[t].skin.unwrap() < skin_count)
}

impl<S: Scalar> GltfLight<S> {
    /// The light of a declared light at a transform.
    pub fn new(light: &SourceLight<S>, transform: Option<usize>) -> (r: GltfLight<S>)
        ensures
            r == light_of(*light, transform),
    {
        let (light_type, inner_cone_angle, outer_cone_angle) = match light.kind {
            SourceLightKind::Directional => (LightType::DirectionalLight, None, None),
            SourceLightKind::Point => (LightType::PointLight, None, None),
            SourceLightKind::Spot { inner_cone_angle, outer_cone_angle } => (
                LightType::SpotLight,
                Some(inner_cone_angle),
                Some(outer_cone_angle),
            ),
        };
        GltfLight {
            transform,
            light_type,
            color: light.color,
            intensity: light.intensity,
            range: light.range,
            inner_cone_angle,
            outer_cone_angle,
        }
    }
}

impl<S: Scalar> GltfDrawable<S> {
    /// The name of the drawable.
    pub fn name(&self) -> (r: &str)
        ensures
            r@ == self.name@,
    {
        self.name.as_str()
    }

    /// The text of the metadata that applies to the drawable.
    pub fn extras(&self) -> (r: &Option<String>)
        ensures
            r == &self.raw_extras,
    {
        &self.raw_extras
    }
}

/// For each node, the position of the node whose metadata applies to it.
pub fn inherit_extras<S: Scalar>(nodes: &Vec<SourceNode<S>>) -> (r: Vec<Option<usize>>)
    ensures
        r@.len() == nodes@.len(),
        forall|i: int|
            0 <= i < r@.len() ==> match #[trigger] r@[i] {
                Some(j) => extras_source(nodes@, i) == Some(j as int),
                None => extras_source(nodes@, i) is None,
            },
{
    let mut r: Vec<Option<usize>> = Vec::new();
    let mut i: usize = 0;
    while i < nodes.len()
        invariant
            i <= nodes@.len(),
            r@.len() == i,
            forall|k: int|
                0 <= k < i ==> match #[trigger] r@[k] {
                    Some(j) => extras_source(nodes@, k) == Some(j as int),
                    None => extras_source(nodes@, k) is None,
                },
        decreases nodes@.len() - i,
    {
        let node = &nodes[i];
        let src = if node.extras.is_some() {
            Some(i)
        } else {
            match node.parent {
                Some(p) => if p < i {
                    r[p]
                } else {
                    None
                },
                None => None,
            }
        };
        r.push(src);
        i = i + 1;
    }
    r
}

/// Builds the flat lists of drawables and lights from the nodes, in the
/// order of the nodes. Metadata is inherited from the nearest ancestor that
/// declares any. The first node that cannot be built stops the whole scene.
pub fn build_scene<S: Scalar>(
    nodes: &Vec<SourceNode<S>>,
    transform_hierarchy: &GltfTransformHierarchy<S>,
    meshes: &Vec<SourceMesh>,
    skin_count: usize,
) -> (r: Result<(Vec<GltfDrawable<S>>, Vec<GltfLight<S>>), ImportError>)
    ensures
        match r {
            Ok((ds, ls)) => scene_fault(nodes@, nodes@.len() as int, meshes@.len() as int, skin_count as int)
                is None && is_scene_of(ds@, ls@, nodes@, meshes@, transform_hierarchy@.index, nodes@.len() as int)
                && scene_in_range(ds@, meshes@.len() as int, skin_count as int),
            Err(e) => scene_fault(nodes@, nodes@.len() as int, meshes@.len() as int, skin_count as int)
                == Some(e),
        },
{
    let inherited = inherit_extras(nodes);
    let mut drawables: Vec<GltfDrawable<S>> = Vec::new();
    let mut lights: Vec<GltfLight<S>> = Vec::new();
    let mut i: usize = 0;
    while i < nodes.len()
        invariant
            i <= nodes@.len(),
            inherited@.len() == nodes@.len(),
            forall|k: int|
                0 <= k < inherited@.len() ==> match #[trigger] inherited@[k] {
                    Some(j) => extras_source(nodes@, k) == Some(j as int),
                    None => extras_source(nodes@, k) is None,
                },
            scene_fault(nodes@, i as int, meshes@.len() as int, skin_count as int) is None,
            is_scene_of(drawables@, lights@, nodes@, meshes@, transform_hierarchy@.index, i as int),
            scene_in_range(drawables@, meshes@.len() as int, skin_count as int),
        decreases nodes@.len() - i,
    {
        let node = &nodes[i];
        let transform = transform_hierarchy.node_by_index(node.index);
        let ghost ds0 = drawables@;
        let ghost ls0 = lights@;
        if let Some(m) = node.mesh {
            if m >= meshes.len() {
                proof {
                    lemma_fault_persists(nodes@, i as int + 1, nodes@.len() as int, meshes@.len() as int, skin_count as int);
                }
                return Err(ImportError::Reference);
            }
            if let Some(s) = node.skin {
                if s >= skin_count {
                    proof {
                    lemma_fault_persists(nodes@, i as int + 1, nodes@.len() as int, meshes@.len() as int, skin_count as int);
                }
                    return Err(ImportError::Reference);
                }
            }
            let name = match &meshes[m].name {
                Some(n) => n.clone(),
                None => String::new(),
            };
            let (parsed_extras, raw_extras) = match inherited[i] {
                Some(j) => {
                    proof {
                        assert(extras_source(nodes@, i as int) == Some(j as int));
                        assert(0 <= j < nodes@.len() && nodes@[j as int].extras is Some) by {
                            lemma_extras_source_declares(nodes@, i as int);
                        }
                    }
                    match &nodes[j].extras {
                        Some(e) => match e.parsed {
                            Some(parsed) => (parsed, Some(e.raw.clone())),
                            None => {
                                proof {
                    lemma_fault_persists(nodes@, i as int + 1, nodes@.len() as int, meshes@.len() as int, skin_count as int);
                }
                                return Err(ImportError::Metadata);
                            },
                        },
                        None => (GltfNodeExtras::default(), None),
                    }
                },
                None => (GltfNodeExtras::default(), None),
            };
            let drawable = GltfDrawable { name, transform, mesh: m, skin: node.skin, parsed_extras, raw_extras };
            proof {
                assert(is_drawable_of(drawable, nodes@, meshes@, transform_hierarchy@.index, i as int));
            }
            drawables.push(drawable);
        }
        if let Some(light) = &node.light {
            lights.push(GltfLight::new(light, transform));
        }
        proof {
            let k = i as int + 1;
            assert(mesh_nodes(nodes@, k) == if nodes@[i as int].mesh is Some {
                mesh_nodes(nodes@, i as int).push(i as int)
            } else {
                mesh_nodes(nodes@, i as int)
            });
            assert(light_nodes(nodes@, k) == if nodes@[i as int].light is Some {
                light_nodes(nodes@, i as int).push(i as int)
            } else {
                light_nodes(nodes@, i as int)
            });
            assert forall|t: int| 0 <= t < drawables@.len() implies is_drawable_of(
                #[trigger] drawables@[t],
                nodes@,
                meshes@,
                transform_hierarchy@.index,
                mesh_nodes(nodes@, k)[t],
            ) by {
                if t < ds0.len() {
                    assert(drawables@[t] == ds0[t]);
                }
            }
            assert forall|t: int| 0 <= t < drawables@.len() implies (#[trigger] drawables@[t]).mesh
                < meshes@.len() && (drawables@[t].skin is Some ==> drawables@[t].skin.unwrap() < skin_count) by {
                if t < ds0.len() {
                    assert(drawables@[t] == ds0[t]);
                }
            }
            assert forall|t: int| 0 <= t < lights@.len() implies #[trigger] lights@[t] == light_of(
                nodes@[light_nodes(nodes@, k)[t]].light.unwrap(),
                lookup(transform_hierarchy@.index, nodes@[light_nodes(nodes@, k)[t]].index),
            ) by {
                if t < ls0.len() {
                    assert(lights@[t] == ls0[t]);
                }
            }
        }
        i = i + 1;
    }
    Ok((drawables, lights))
}

/// Once a fault has stopped the scene, later nodes do not change it.
pub proof fn lemma_fault_persists<S: Scalar>(
    nodes: Seq<SourceNode<S>>,
    k: int,
    n: int,
    mesh_count: int,
    skin_count: int,
)
    requires
        0 <= k <= n,
        scene_fault(nodes, k, mesh_count, skin_count) is Some,
    ensures
        scene_fault(nodes, n, mesh_count, skin_count) == scene_fault(nodes, k, mesh_count, skin_count),
    decreases n - k,
{
    if k < n {
        lemma_fault_persists(nodes, k, n - 1, mesh_count, skin_count);
    }
}

/// The node whose metadata applies declares metadata, and is the node
/// itself or one above it.
pub proof fn lemma_extras_source_declares<S: Scalar>(nodes: Seq<SourceNode<S>>, i: int)
    requires
        extras_source(nodes, i) is Some,
    ensures
        0 <= extras_source(nodes, i).unwrap() <= i,
        extras_source(nodes, i).unwrap() < nodes.len(),
        nodes[extras_source(nodes, i).unwrap()].extras is Some,
        is_under(nodes, i, extras_source(nodes, i).unwrap()),
    decreases i,
{
    if !(0 <= i < nodes.len() && nodes[i].extras is Some) {
        lemma_extras_source_declares(nodes, nodes[i].parent.unwrap() as int);
    }
}

/// A node without metadata of its own takes what applies to its parent.
pub proof fn lemma_extras_inherited<S: Scalar>(nodes: Seq<SourceNode<S>>, i: int)
    requires
        0 <= i < nodes.len(),
        nodes[i].extras is None,
        has_parent(nodes, i),
    ensures
        effective_extras(nodes, i) == effective_extras(nodes, nodes[i].parent.unwrap() as int),
        effective_parsed(nodes, i) == effective_parsed(nodes, nodes[i].parent.unwrap() as int),
{
}

/// A node without metadata and without a parent has the default.
pub proof fn lemma_extras_default<S: Scalar>(nodes: Seq<SourceNode<S>>, i: int)
    requires
        0 <= i < nodes.len(),
        nodes[i].extras is None,
        !has_parent(nodes, i),
    ensures
        effective_extras(nodes, i) is None,
        effective_parsed(nodes, i) == (GltfNodeExtras { lighting_strength: S::one_value() }),
{
}

/// Replacing the node at `c` by one that differs in its metadata alone
/// changes what applies to no node outside the subtree of `c`: neither to
/// its siblings nor to its ancestors.
pub proof fn lemma_override_is_local<S: Scalar>(
    nodes: Seq<SourceNode<S>>,
    c: int,
    changed: SourceNode<S>,
    j: int,
)
    requires
        0 <= c < nodes.len(),
        0 <= j < nodes.len(),
        changed.parent == nodes[c].parent,
        !is_under(nodes, j, c),
    ensures
        effective_extras(nodes.update(c, changed), j) == effective_extras(nodes, j),
    decreases j,
{
    let after = nodes.update(c, changed);
    assert(after[j] == nodes[j]);
    if has_parent(nodes, j) {
        lemma_override_is_local(nodes, c, changed, nodes[j].parent.unwrap() as int);
    }
    if extras_source(nodes, j) is Some {
        lemma_extras_source_declares(nodes, j);
        lemma_source_outside(nodes, j, c);
    }
}

/// What applies to a node outside the subtree of `c` is not declared at `c`.
pub proof fn lemma_source_outside<S: Scalar>(nodes: Seq<SourceNode<S>>, j: int, c: int)
    requires
        !is_under(nodes, j, c),
        extras_source(nodes, j) is Some,
    ensures
        extras_source(nodes, j).unwrap() != c,
    decreases j,
{
    if !(0 <= j < nodes.len() && nodes[j].extras is Some) {
        lemma_source_outside(nodes, nodes[j].parent.unwrap() as int, c);
    }
}

} // verus!
