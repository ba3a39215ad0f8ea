use dreamfield_renderer::error::{ImportError, RenderError};
use dreamfield_renderer::hierarchy_build::build_hierarchy;
use dreamfield_renderer::matrix::{Mat4, Vec3, Vec4};
use dreamfield_renderer::model::{GltfModel, SourceDocument};
use dreamfield_renderer::model::DrawCommand;
use dreamfield_renderer::node_graph::{flatten, DeclaredNode};
use dreamfield_renderer::params::GlobalParams;
use dreamfield_renderer::resources::{
    has_animation, load_animations, load_mesh, load_skin, resolve_targets, GltfAnimation, MaterialBinding,
    SourceAnimation, SourceJoint, SourceSkin,
};
use dreamfield_renderer::scene::{
    build_scene, inherit_extras, GltfLight, GltfNodeExtras, LightType, SourceExtras, SourceLight, SourceLightKind,
    SourceMesh, SourceNode,
};
use dreamfield_renderer::texture::{ImportConfig, SourceTexture, LINEAR, LINEAR_MIPMAP_LINEAR};
use dreamfield_renderer::transform::GltfTransformHierarchy;

fn cols(m: &Mat4<i64>) -> [[i64; 4]; 4] {
    [
        [m.x.x, m.x.y, m.x.z, m.x.w],
        [m.y.x, m.y.y, m.y.z, m.y.w],
        [m.z.x, m.z.y, m.z.z, m.z.w],
        [m.w.x, m.w.y, m.w.z, m.w.w],
    ]
}

fn node(index: usize, parent: Option<usize>) -> SourceNode<i64> {
    SourceNode { index, parent, local: Mat4::identity(), mesh: None, skin: None, light: None, extras: None }
}

fn mesh_node(index: usize, parent: Option<usize>, mesh: usize) -> SourceNode<i64> {
    SourceNode { mesh: Some(mesh), ..node(index, parent) }
}

fn extras(strength: i64) -> Option<SourceExtras<i64>> {
    Some(SourceExtras {
        raw: format!("{{\"lighting_strength\":{}}}", strength),
        parsed: Some(GltfNodeExtras { lighting_strength: strength }),
    })
}

fn plain_mesh(name: Option<&str>) -> SourceMesh {
    SourceMesh {
        name: name.map(|n| n.to_string()),
        is_billboard: false,
        keep_upright: false,
        primitive_materials: vec![None],
    }
}

fn declared(children: Vec<usize>) -> DeclaredNode<i64> {
    DeclaredNode { local: Mat4::identity(), children, mesh: None, skin: None, light: None, extras: None }
}

fn doc(flat: Vec<SourceNode<i64>>, meshes: Vec<SourceMesh>) -> SourceDocument<i64> {
    let count = flat.iter().map(|f| f.index + 1).max().unwrap_or(0);
    let mut nodes: Vec<DeclaredNode<i64>> = (0..count).map(|_| declared(vec![])).collect();
    let mut roots = vec![];
    for f in flat.iter() {
        match f.parent {
            Some(p) => nodes[flat[p].index].children.push(f.index),
            None => roots.push(f.index),
        }
    }
    for f in flat {
        let d = &mut nodes[f.index];
        d.local = f.local;
        d.mesh = f.mesh;
        d.skin = f.skin;
        d.light = f.light;
        d.extras = f.extras;
    }
    SourceDocument {
        nodes,
        roots,
        image_count: 0,
        textures: vec![],
        material_count: 0,
        meshes,
        skins: vec![],
        animations: vec![],
    }
}

fn block(view: &Mat4<i64>) -> GlobalParams<i64> {
    let mut ubo = GlobalParams::new();
    ubo.set_mat_view(view);
    ubo
}

fn frame(
    model: &mut GltfModel<i64>,
    object: &Mat4<i64>,
    view: &Mat4<i64>,
) -> Vec<Result<DrawCommand<i64>, RenderError>> {
    model.render(object, &mut block(view))
}

fn config() -> ImportConfig {
    ImportConfig::new(4)
}

fn anim(name: &str, targets: Vec<usize>) -> SourceAnimation {
    SourceAnimation { name: name.to_string(), targets }
}

fn import_error(d: &SourceDocument<i64>) -> ImportError {
    match GltfModel::import(d, &config()) {
        Ok(_) => panic!("the import went through"),
        Err(e) => e,
    }
}

#[test]
fn child_drawable_is_placed_below_the_root() {
    let mut child = mesh_node(0, None, 0);
    child.local = Mat4::from_translation(1, 0, 0);
    let mut model = GltfModel::import(&doc(vec![child], vec![plain_mesh(Some("cube"))]), &config()).unwrap();
    model.set_transform(&Mat4::from_translation(0, 2, 0));
    let drawn = frame(&mut model, &Mat4::identity(), &Mat4::identity());
    assert_eq!(drawn.len(), 1);
    let command = drawn[0].as_ref().unwrap();
    let m = command.model_matrix;
    assert_eq!((m.w.x, m.w.y, m.w.z), (1, 2, 0));
    assert_eq!(cols(&m), cols(&Mat4::from_translation(1, 2, 0)));
    assert_eq!(command.mesh, 0);
    assert_eq!(command.lighting_strength, 1);
    assert!(!command.skinning_enabled);
    assert!(command.joint_matrices.is_empty());
}

#[test]
fn child_drawable_is_placed_below_its_parent_node() {
    let mut root = node(0, None);
    root.local = Mat4::from_translation(0, 2, 0);
    let mut child = mesh_node(1, Some(0), 0);
    child.local = Mat4::from_translation(1, 0, 0);
    let mut model = GltfModel::import(&doc(vec![root, child], vec![plain_mesh(None)]), &config()).unwrap();
    let drawn = frame(&mut model, &Mat4::identity(), &Mat4::identity());
    let m = drawn[0].as_ref().unwrap().model_matrix;
    assert_eq!((m.w.x, m.w.y, m.w.z), (1, 2, 0));
    let moved = frame(&mut model, &Mat4::from_translation(10, 20, 30), &Mat4::identity());
    let m = moved[0].as_ref().unwrap().model_matrix;
    assert_eq!((m.w.x, m.w.y, m.w.z), (11, 22, 30));
    assert_eq!(model.drawables()[0].name(), "");
}

#[test]
fn set_transform_sets_the_root_world_transform() {
    let mut model = GltfModel::import(&doc(vec![node(0, None)], vec![]), &config()).unwrap();
    let m = Mat4::from_cols(
        Vec4::new(1i64, 2, 3, 4),
        Vec4::new(5, 6, 7, 8),
        Vec4::new(9, 10, 11, 12),
        Vec4::new(13, 14, 15, 16),
    );
    model.set_transform(&m);
    assert_eq!(cols(&model.world_transform(0)), cols(&m));
    assert_eq!(cols(&model.world_transform(1)), cols(&m));
}

#[test]
fn hierarchy_has_one_entry_for_each_node() {
    let nodes = vec![node(4, None), node(2, Some(0)), node(9, Some(1)), node(0, Some(0)), node(7, None)];
    let mut h = build_hierarchy(&nodes).unwrap();
    assert_eq!(h.len(), 6);
    assert_eq!(h.node_by_index(4), Some(1));
    assert_eq!(h.node_by_index(2), Some(2));
    assert_eq!(h.node_by_index(9), Some(3));
    assert_eq!(h.node_by_index(0), Some(4));
    assert_eq!(h.node_by_index(7), Some(5));
    for missing in [1usize, 3, 5, 6, 8, 10] {
        assert_eq!(h.node_by_index(missing), None);
    }
    assert_eq!(h.parent(1), Some(0));
    assert_eq!(h.parent(2), Some(1));
    assert_eq!(h.parent(3), Some(2));
    assert_eq!(h.parent(4), Some(1));
    assert_eq!(h.parent(5), Some(0));
    assert!(h.is_dirty(3));
    assert_eq!(cols(&h.world_transform(3)), cols(&Mat4::identity()));
}

#[test]
fn empty_node_list_gives_the_root_alone() {
    let nodes: Vec<SourceNode<i64>> = vec![];
    let h = build_hierarchy(&nodes).unwrap();
    assert_eq!(h.len(), 1);
    let model = GltfModel::import(&doc(vec![], vec![]), &config()).unwrap();
    assert!(model.drawables().is_empty());
    assert!(model.lights().is_empty());
    assert!(model.animations().is_empty());
}

#[test]
fn parent_that_does_not_precede_is_a_parse_error() {
    assert!(matches!(build_hierarchy(&vec![node(0, Some(0))]), Err(ImportError::Parse)));
    assert!(matches!(build_hierarchy(&vec![node(0, Some(1)), node(1, None)]), Err(ImportError::Parse)));
}

#[test]
fn repeated_source_index_is_a_parse_error() {
    assert!(matches!(build_hierarchy(&vec![node(3, None), node(3, Some(0))]), Err(ImportError::Parse)));
    assert_eq!(import_error(&doc(vec![node(1, None), node(2, None), node(1, None)], vec![])), ImportError::Parse);
}

#[test]
fn child_without_metadata_inherits_from_nearest_ancestor() {
    let mut top = mesh_node(0, None, 0);
    top.extras = extras(3);
    let mid = mesh_node(1, Some(0), 0);
    let mut low = mesh_node(2, Some(1), 0);
    low.extras = extras(7);
    let leaf = mesh_node(3, Some(2), 0);
    let nodes = vec![top, mid, low, leaf];
    assert_eq!(inherit_extras(&nodes), vec![Some(0), Some(0), Some(2), Some(2)]);
    let model = GltfModel::import(&doc(nodes, vec![plain_mesh(Some("m"))]), &config()).unwrap();
    let strengths: Vec<i64> = model.drawables().iter().map(|d| d.parsed_extras.lighting_strength).collect();
    assert_eq!(strengths, vec![3, 3, 7, 7]);
    assert_eq!(model.drawables()[1].extras().as_ref().unwrap(), "{\"lighting_strength\":3}");
    assert_eq!(model.drawables()[3].extras().as_ref().unwrap(), "{\"lighting_strength\":7}");
}

#[test]
fn metadata_passes_through_nodes_without_a_mesh() {
    let mut group = node(0, None);
    group.extras = extras(5);
    let inner = node(1, Some(0));
    let leaf = mesh_node(2, Some(1), 0);
    let model = GltfModel::import(&doc(vec![group, inner, leaf], vec![plain_mesh(None)]), &config()).unwrap();
    assert_eq!(model.drawables().len(), 1);
    assert_eq!(model.drawables()[0].parsed_extras.lighting_strength, 5);
    assert_eq!(model.drawables()[0].transform, Some(3));
}

#[test]
fn override_leaves_siblings_and_ancestors_alone() {
    let build = |child_strength: Option<i64>| {
        let mut parent = mesh_node(0, None, 0);
        parent.extras = extras(2);
        let mut first = mesh_node(1, Some(0), 0);
        first.extras = child_strength.and_then(extras);
        let below = mesh_node(2, Some(1), 0);
        let second = mesh_node(3, Some(0), 0);
        let model =
            GltfModel::import(&doc(vec![parent, first, below, second], vec![plain_mesh(None)]), &config()).unwrap();
        model.drawables().iter().map(|d| d.parsed_extras.lighting_strength).collect::<Vec<i64>>()
    };
    assert_eq!(build(None), vec![2, 2, 2, 2]);
    assert_eq!(build(Some(9)), vec![2, 9, 9, 2]);
}

#[test]
fn siblings_do_not_inherit_from_each_other() {
    let mut first = mesh_node(0, None, 0);
    first.extras = extras(5);
    let second = mesh_node(1, None, 0);
    let nodes = vec![first, second];
    assert_eq!(inherit_extras(&nodes), vec![Some(0), None]);
    let model = GltfModel::import(&doc(nodes, vec![plain_mesh(None)]), &config()).unwrap();
    assert_eq!(model.drawables()[0].parsed_extras.lighting_strength, 5);
    assert_eq!(model.drawables()[1].parsed_extras.lighting_strength, 1);
    assert!(model.drawables()[1].extras().is_none());

    let mut shared = node(2, None);
    shared.extras = extras(5);
    let a = mesh_node(0, Some(0), 0);
    let b = mesh_node(1, Some(0), 0);
    let model = GltfModel::import(&doc(vec![shared, a, b], vec![plain_mesh(None)]), &config()).unwrap();
    assert_eq!(model.drawables()[0].parsed_extras.lighting_strength, 5);
    assert_eq!(model.drawables()[1].parsed_extras.lighting_strength, 5);
}

#[test]
fn default_metadata_is_full_strength() {
    let d: GltfNodeExtras<i64> = Default::default();
    assert_eq!(d.lighting_strength, 1);
}

#[test]
fn unreadable_metadata_stops_the_import_where_it_applies() {
    let broken = || Some(SourceExtras { raw: "{".to_string(), parsed: None });
    let mut top = node(0, None);
    top.extras = broken();
    let leaf = mesh_node(1, Some(0), 0);
    assert_eq!(import_error(&doc(vec![top, leaf], vec![plain_mesh(None)])), ImportError::Metadata);

    let mut top = node(0, None);
    top.extras = broken();
    let mut leaf = mesh_node(1, Some(0), 0);
    leaf.extras = extras(4);
    let model = GltfModel::import(&doc(vec![top, leaf], vec![plain_mesh(None)]), &config()).unwrap();
    assert_eq!(model.drawables()[0].parsed_extras.lighting_strength, 4);
}

#[test]
fn missing_mesh_or_skin_is_a_reference_error() {
    assert_eq!(import_error(&doc(vec![mesh_node(0, None, 1)], vec![plain_mesh(None)])), ImportError::Reference);
    let mut skinned = mesh_node(0, None, 0);
    skinned.skin = Some(0);
    assert_eq!(import_error(&doc(vec![skinned], vec![plain_mesh(None)])), ImportError::Reference);
    let mut unread = node(0, None);
    unread.skin = Some(3);
    assert!(GltfModel::import(&doc(vec![unread], vec![]), &config()).is_ok());
}

#[test]
fn first_fault_in_node_order_is_reported() {
    let mut bad_extras = mesh_node(0, None, 0);
    bad_extras.extras = Some(SourceExtras { raw: String::new(), parsed: None });
    let bad_mesh = mesh_node(1, None, 8);
    let h: GltfTransformHierarchy<i64> = GltfTransformHierarchy::new();
    let meshes = vec![plain_mesh(None)];
    let r = build_scene(&vec![bad_extras, bad_mesh], &h, &meshes, 0);
    assert!(matches!(r, Err(ImportError::Metadata)));
    let mut bad_extras = mesh_node(0, None, 0);
    bad_extras.extras = Some(SourceExtras { raw: String::new(), parsed: None });
    let r = build_scene(&vec![mesh_node(1, None, 8), bad_extras], &h, &meshes, 0);
    assert!(matches!(r, Err(ImportError::Reference)));
}

#[test]
fn drawables_and_lights_come_in_node_order() {
    let spot = SourceLight {
        kind: SourceLightKind::Spot { inner_cone_angle: 3, outer_cone_angle: 4 },
        color: Vec3 { x: 1, y: 2, z: 3 },
        intensity: 10,
        range: Some(50),
    };
    let sun = SourceLight {
        kind: SourceLightKind::Directional,
        color: Vec3 { x: 9, y: 9, z: 8 },
        intensity: 2,
        range: None,
    };
    let bulb = SourceLight { kind: SourceLightKind::Point, ..sun };
    let mut a = mesh_node(5, None, 1);
    a.light = Some(spot);
    let mut b = node(6, Some(0));
    b.light = Some(sun);
    let c = mesh_node(7, Some(1), 0);
    let mut d = node(8, None);
    d.light = Some(bulb);
    let model = GltfModel::import(
        &doc(vec![a, b, c, d], vec![plain_mesh(Some("first")), plain_mesh(Some("second"))]),
        &config(),
    )
    .unwrap();
    let names: Vec<&str> = model.drawables().iter().map(|d| d.name()).collect();
    assert_eq!(names, vec!["second", "first"]);
    assert_eq!(model.drawables()[0].transform, Some(1));
    assert_eq!(model.drawables()[1].transform, Some(3));
    assert_eq!(model.drawables()[1].mesh, 0);
    let lights = model.lights();
    assert_eq!(lights.len(), 3);
    assert_eq!(lights[0].light_type, LightType::SpotLight);
    assert_eq!((lights[0].inner_cone_angle, lights[0].outer_cone_angle), (Some(3), Some(4)));
    assert_eq!((lights[0].color.x, lights[0].color.y, lights[0].color.z), (1, 2, 3));
    assert_eq!((lights[0].intensity, lights[0].range, lights[0].transform), (10, Some(50), Some(1)));
    assert_eq!(lights[1].light_type, LightType::DirectionalLight);
    assert_eq!((lights[1].inner_cone_angle, lights[1].outer_cone_angle), (None, None));
    assert_eq!(lights[1].transform, Some(2));
    assert_eq!(lights[2].light_type, LightType::PointLight);
    assert_eq!(lights[2].transform, Some(4));
    let direct = GltfLight::new(&spot, None);
    assert_eq!(direct.transform, None);
    assert_eq!(direct.light_type, LightType::SpotLight);
}

#[test]
fn drawable_without_a_transform_falls_back_to_the_root() {
    let mut h: GltfTransformHierarchy<i64> = GltfTransformHierarchy::new();
    h.set_transform(Mat4::from_translation(3, 4, 5));
    let (ds, ls) = build_scene(&vec![mesh_node(0, None, 0)], &h, &vec![plain_mesh(Some("loose"))], 0).unwrap();
    assert_eq!(ds.len(), 1);
    assert!(ls.is_empty());
    assert_eq!(ds[0].transform, None);
    assert_eq!(ds[0].name(), "loose");
}

#[test]
fn importing_twice_gives_the_same_model() {
    let make = || {
        let mut a = mesh_node(0, None, 0);
        a.extras = extras(6);
        let mut b = mesh_node(1, Some(0), 1);
        b.light = Some(SourceLight {
            kind: SourceLightKind::Point,
            color: Vec3 { x: 1, y: 1, z: 1 },
            intensity: 1,
            range: None,
        });
        let mut d = doc(vec![a, b], vec![plain_mesh(Some("a")), plain_mesh(Some("b"))]);
        d.animations = vec![anim("walk", vec![0]), anim("run", vec![1, 0])];
        d
    };
    let first = GltfModel::import(&make(), &config()).unwrap();
    let second = GltfModel::import(&make(), &config()).unwrap();
    assert_eq!(first.drawables().len(), 2);
    assert_eq!(first.drawables().len(), second.drawables().len());
    assert_eq!(first.lights().len(), 1);
    assert_eq!(first.lights().len(), second.lights().len());
    let names = |m: &GltfModel<i64>| m.animations().iter().map(|a| a.name.clone()).collect::<Vec<String>>();
    assert_eq!(names(&first), vec!["walk".to_string(), "run".to_string()]);
    assert_eq!(names(&first), names(&second));
}

#[test]
fn textures_are_planned_in_order() {
    let mut d = doc(vec![], vec![]);
    d.image_count = 2;
    d.textures = vec![
        SourceTexture { image: 1, wrap_s: 1, wrap_t: 2, min_filter: Some(LINEAR_MIPMAP_LINEAR), mag_filter: None },
        SourceTexture { image: 0, wrap_s: 3, wrap_t: 4, min_filter: None, mag_filter: Some(LINEAR) },
    ];
    let model = GltfModel::import(&d, &config()).unwrap();
    let plans = model.textures();
    assert_eq!(plans.len(), 2);
    assert_eq!((plans[0].image, plans[0].params.min_filter), (1, LINEAR));
    assert_eq!((plans[1].image, plans[1].params.mag_filter), (0, LINEAR));
    assert!(plans.iter().all(|p| p.generate_mipmaps));
    d.textures[1].image = 2;
    assert_eq!(import_error(&d), ImportError::Reference);
}

#[test]
fn primitives_take_their_material_or_the_default() {
    let mesh = SourceMesh {
        name: None,
        is_billboard: true,
        keep_upright: false,
        primitive_materials: vec![Some(1), None, Some(0)],
    };
    let g = load_mesh(&mesh, 2).unwrap();
    assert_eq!(
        g.materials,
        vec![MaterialBinding::Declared(1), MaterialBinding::Default, MaterialBinding::Declared(0)]
    );
    assert!(g.is_billboard);
    assert!(!g.keep_upright);
    assert!(matches!(load_mesh(&mesh, 1), Err(ImportError::Reference)));
    let mut d = doc(vec![], vec![mesh]);
    d.material_count = 1;
    assert_eq!(import_error(&d), ImportError::Reference);
    d.material_count = 2;
    assert_eq!(GltfModel::import(&d, &config()).unwrap().meshes().len(), 1);
}

#[test]
fn joints_take_the_transform_of_their_node() {
    let h = build_hierarchy(&vec![node(4, None), node(2, Some(0))]).unwrap();
    let ibm: Mat4<i64> = Mat4::from_translation(1, 1, 1);
    let skin = SourceSkin {
        joints: vec![
            SourceJoint { node: 2, inverse_bind_matrix: ibm },
            SourceJoint { node: 4, inverse_bind_matrix: Mat4::identity() },
        ],
    };
    let g = load_skin(&skin, &h, 2).unwrap();
    assert_eq!(g.joints.len(), 2);
    assert_eq!(g.joints[0].transform, 2);
    assert_eq!(g.joints[1].transform, 1);
    assert_eq!(cols(&g.joints[0].inverse_bind_matrix), cols(&ibm));
    assert!(matches!(load_skin(&skin, &h, 1), Err(ImportError::Resource)));
    let lost = SourceSkin { joints: vec![SourceJoint { node: 3, inverse_bind_matrix: ibm }] };
    assert!(matches!(load_skin(&lost, &h, 2), Err(ImportError::Reference)));
    let both = SourceSkin {
        joints: vec![
            SourceJoint { node: 3, inverse_bind_matrix: ibm },
            SourceJoint { node: 3, inverse_bind_matrix: ibm },
        ],
    };
    assert!(matches!(load_skin(&both, &h, 1), Err(ImportError::Resource)));
}

#[test]
fn animations_are_kept_by_name() {
    let mut d = doc(vec![node(0, None), node(1, Some(0))], vec![]);
    d.animations = vec![anim("idle", vec![1]), anim("", vec![]), anim("jump", vec![0, 1, 1])];
    let model = GltfModel::import(&d, &config()).unwrap();
    assert_eq!(model.animation(&"idle".to_string()), Some(0));
    assert_eq!(model.animation(&"".to_string()), Some(1));
    assert_eq!(model.animation(&"jump".to_string()), Some(2));
    assert_eq!(model.animation(&"fall".to_string()), None);
    assert_eq!(model.animations()[2].targets, vec![1, 2, 2]);
    assert_eq!(model.animations()[0].targets, vec![2]);
}

#[test]
fn animation_name_used_twice_is_a_collision() {
    let mut d = doc(vec![node(0, None)], vec![]);
    d.animations = vec![anim("idle", vec![0]), anim("walk", vec![]), anim("idle", vec![])];
    assert_eq!(import_error(&d), ImportError::NameCollision);
    let h = build_hierarchy(&flatten(&d.nodes, &d.roots).unwrap()).unwrap();
    assert!(matches!(load_animations(&d.animations, &h), Err(ImportError::NameCollision)));
    d.animations[2].name = "Idle".to_string();
    assert_eq!(load_animations(&d.animations, &h).unwrap().len(), 3);
}

#[test]
fn animation_of_a_missing_node_is_a_reference_error() {
    let h = build_hierarchy(&vec![node(0, None)]).unwrap();
    assert_eq!(resolve_targets(&anim("a", vec![0, 0]), &h), Some(vec![1, 1]));
    assert_eq!(resolve_targets(&anim("a", vec![0, 1]), &h), None);
    let anims = vec![anim("a", vec![0]), anim("a", vec![1])];
    assert!(matches!(load_animations(&anims, &h), Err(ImportError::Reference)));
    let known = vec![GltfAnimation { name: "a".to_string(), targets: vec![] }];
    assert!(has_animation(&known, &"a".to_string()));
    assert!(!has_animation(&known, &"b".to_string()));
}

#[test]
fn stages_fail_in_their_order() {
    let mut d = doc(vec![mesh_node(0, None, 5)], vec![]);
    d.animations = vec![anim("x", vec![]), anim("x", vec![])];
    assert_eq!(import_error(&d), ImportError::NameCollision);
    d.skins = vec![SourceSkin { joints: vec![SourceJoint { node: 0, inverse_bind_matrix: Mat4::identity() }; 5] }];
    assert_eq!(import_error(&d), ImportError::Resource);
    d.textures = vec![SourceTexture { image: 0, wrap_s: 0, wrap_t: 0, min_filter: None, mag_filter: None }];
    assert_eq!(import_error(&d), ImportError::Reference);
    d.roots.push(0);
    assert_eq!(import_error(&d), ImportError::Parse);
}

#[test]
fn skinned_drawable_gets_its_joint_matrices() {
    let mut bone = node(0, None);
    bone.local = Mat4::from_translation(0, 0, 5);
    let mut tip = node(1, Some(0));
    tip.local = Mat4::from_translation(1, 0, 0);
    let mut body = mesh_node(2, None, 0);
    body.skin = Some(0);
    let mut d = doc(vec![bone, tip, body], vec![plain_mesh(Some("body"))]);
    d.skins = vec![SourceSkin {
        joints: vec![
            SourceJoint { node: 1, inverse_bind_matrix: Mat4::from_translation(-1, 0, -5) },
            SourceJoint { node: 0, inverse_bind_matrix: Mat4::from_translation(0, 7, 0) },
        ],
    }];
    let mut model = GltfModel::import(&d, &config()).unwrap();
    model.set_transform(&Mat4::from_translation(100, 0, 0));
    let object = Mat4::from_translation(0, 1000, 0);
    let drawn = frame(&mut model, &object, &Mat4::identity());
    let command = drawn[0].as_ref().unwrap();
    assert!(command.skinning_enabled);
    assert_eq!(command.joint_matrices.len(), 2);
    assert_eq!(cols(&command.joint_matrices[0]), cols(&Mat4::from_translation(100, 1000, 0)));
    assert_eq!(cols(&command.joint_matrices[1]), cols(&Mat4::from_translation(100, 1007, 5)));
    assert_eq!(cols(&command.model_matrix), cols(&Mat4::from_translation(100, 1000, 0)));
    assert_eq!(model.skins()[0].joints[0].transform, 2);
}

#[test]
fn billboard_drawable_faces_the_camera() {
    let mut n = mesh_node(0, None, 0);
    n.local = Mat4::from_cols(
        Vec4::new(0i64, 1, 0, 0),
        Vec4::new(-1, 0, 0, 0),
        Vec4::new(0, 0, 1, 0),
        Vec4::new(4, 5, 6, 1),
    );
    let mut mesh = plain_mesh(None);
    mesh.is_billboard = true;
    let mut model = GltfModel::import(&doc(vec![n], vec![mesh]), &config()).unwrap();
    let drawn = frame(&mut model, &Mat4::identity(), &Mat4::identity());
    let m = drawn[0].as_ref().unwrap().model_matrix;
    assert_eq!(cols(&m), cols(&Mat4::from_translation(4, 5, 6)));
    let view = Mat4::from_cols(
        Vec4::new(0i64, 0, 1, 0),
        Vec4::new(0, 1, 0, 0),
        Vec4::new(-1, 0, 0, 0),
        Vec4::new(9, 9, 9, 1),
    );
    let m = model.draw(0, &Mat4::identity(), &mut block(&view)).unwrap().model_matrix;
    assert_eq!(cols(&m), [[0, 0, -1, 0], [0, 1, 0, 0], [1, 0, 0, 0], [4, 5, 6, 1]]);
}

#[test]
fn upright_billboard_is_left_out_and_the_frame_goes_on() {
    let mut upright = plain_mesh(Some("upright"));
    upright.is_billboard = true;
    upright.keep_upright = true;
    let mut quiet = plain_mesh(Some("quiet"));
    quiet.keep_upright = true;
    let nodes = vec![mesh_node(0, None, 0), mesh_node(1, None, 1), mesh_node(2, None, 0)];
    let mut model = GltfModel::import(&doc(nodes, vec![upright, quiet]), &config()).unwrap();
    let drawn = frame(&mut model, &Mat4::identity(), &Mat4::identity());
    assert_eq!(drawn.len(), 3);
    assert!(matches!(drawn[0], Err(RenderError::UprightBillboard)));
    assert!(drawn[1].is_ok());
    assert!(matches!(drawn[2], Err(RenderError::UprightBillboard)));
    assert!(model.transform_hierarchy().is_dirty(1));
    assert!(!model.transform_hierarchy().is_dirty(2));
    assert!(model.transform_hierarchy().is_dirty(3));
    let mut ubo = block(&Mat4::from_translation(1, 1, 1));
    ubo.upload_changed();
    assert!(matches!(model.draw(0, &Mat4::identity(), &mut ubo), Err(RenderError::UprightBillboard)));
    assert!(!ubo.is_changed());
    assert_eq!(cols(&ubo.get_mat_model()), cols(&Mat4::identity()));
}

#[test]
fn lighting_strength_reaches_the_draw_command() {
    let mut n = mesh_node(0, None, 0);
    n.extras = extras(42);
    let mut model = GltfModel::import(&doc(vec![n, mesh_node(1, None, 0)], vec![plain_mesh(None)]), &config()).unwrap();
    let drawn = frame(&mut model, &Mat4::identity(), &Mat4::identity());
    assert_eq!(drawn[0].as_ref().unwrap().lighting_strength, 42);
    assert_eq!(drawn[1].as_ref().unwrap().lighting_strength, 1);
    assert_eq!(model.transform_hierarchy().len(), 3);
}

fn listed(nodes: &Vec<DeclaredNode<i64>>, roots: &Vec<usize>) -> Vec<(usize, Option<usize>)> {
    flatten(nodes, roots).unwrap().iter().map(|n| (n.index, n.parent)).collect()
}

fn walk_error(nodes: &Vec<DeclaredNode<i64>>, roots: &Vec<usize>) -> ImportError {
    match flatten(nodes, roots) {
        Ok(_) => panic!("the walk went through"),
        Err(e) => e,
    }
}

#[test]
fn walk_lists_parents_first_and_depth_first() {
    let nodes = vec![
        declared(vec![]),
        declared(vec![4, 0]),
        declared(vec![]),
        declared(vec![1, 2]),
        declared(vec![5]),
        declared(vec![]),
        declared(vec![]),
    ];
    assert_eq!(
        listed(&nodes, &vec![3, 6]),
        vec![(3, None), (1, Some(0)), (4, Some(1)), (5, Some(2)), (0, Some(1)), (2, Some(0)), (6, None)]
    );
    assert_eq!(listed(&nodes, &vec![4]), vec![(4, None), (5, Some(0))]);
    assert_eq!(listed(&nodes, &vec![]), vec![]);
}

#[test]
fn walk_carries_what_the_nodes_declare() {
    let mut top = declared(vec![1]);
    top.local = Mat4::from_translation(1, 2, 3);
    top.extras = extras(8);
    let mut leaf = declared(vec![]);
    leaf.mesh = Some(4);
    leaf.skin = Some(2);
    let list = flatten(&vec![top, leaf], &vec![0]).unwrap();
    assert_eq!(cols(&list[0].local), cols(&Mat4::from_translation(1, 2, 3)));
    assert_eq!(list[0].extras.as_ref().unwrap().raw, "{\"lighting_strength\":8}");
    assert_eq!(list[0].extras.as_ref().unwrap().parsed.unwrap().lighting_strength, 8);
    assert_eq!((list[1].mesh, list[1].skin, list[1].parent), (Some(4), Some(2), Some(0)));
    assert!(list[1].extras.is_none());
}

#[test]
fn walk_of_a_chain_reaches_its_end() {
    let count = 200;
    let nodes: Vec<DeclaredNode<i64>> =
        (0..count).map(|i| declared(if i + 1 < count { vec![i + 1] } else { vec![] })).collect();
    let list = listed(&nodes, &vec![0]);
    assert_eq!(list.len(), count);
    assert_eq!(list[count - 1], (count - 1, Some(count - 2)));
}

#[test]
fn node_reached_twice_is_a_parse_error() {
    assert_eq!(walk_error(&vec![declared(vec![0])], &vec![0]), ImportError::Parse);
    assert_eq!(walk_error(&vec![declared(vec![1]), declared(vec![0])], &vec![1]), ImportError::Parse);
    assert_eq!(walk_error(&vec![declared(vec![])], &vec![0, 0]), ImportError::Parse);
    let shared = vec![declared(vec![2]), declared(vec![2]), declared(vec![])];
    assert_eq!(walk_error(&shared, &vec![0, 1]), ImportError::Parse);
    let mut d = doc(vec![], vec![]);
    d.nodes = vec![declared(vec![1]), declared(vec![0])];
    d.roots = vec![0];
    assert_eq!(import_error(&d), ImportError::Parse);
}

#[test]
fn undeclared_node_is_a_reference_error() {
    assert_eq!(walk_error(&vec![declared(vec![1])], &vec![0]), ImportError::Reference);
    assert_eq!(walk_error(&vec![], &vec![0]), ImportError::Reference);
    let mut d = doc(vec![], vec![]);
    d.roots = vec![3];
    assert_eq!(import_error(&d), ImportError::Reference);
}

#[test]
fn node_outside_every_scene_has_no_transform() {
    let mut d = doc(vec![], vec![]);
    d.nodes = vec![declared(vec![]), declared(vec![]), declared(vec![])];
    d.roots = vec![2, 0];
    d.animations = vec![anim("a", vec![0, 2])];
    let model = GltfModel::import(&d, &config()).unwrap();
    assert_eq!(model.transform_hierarchy().len(), 3);
    assert_eq!(model.transform_hierarchy().node_by_index(2), Some(1));
    assert_eq!(model.transform_hierarchy().node_by_index(0), Some(2));
    assert_eq!(model.transform_hierarchy().node_by_index(1), None);
    assert_eq!(model.animations()[0].targets, vec![2, 1]);
    d.animations = vec![anim("a", vec![1])];
    assert_eq!(import_error(&d), ImportError::Reference);
}

#[test]
fn global_block_is_sent_only_when_it_changed() {
    let mut bright = mesh_node(0, None, 0);
    bright.extras = extras(3);
    let mut moved = mesh_node(3, None, 0);
    moved.local = Mat4::from_translation(1, 0, 0);
    let nodes = vec![mesh_node(2, None, 0), bright, mesh_node(1, None, 0), moved, mesh_node(4, None, 0)];
    let mut model = GltfModel::import(&doc(nodes, vec![plain_mesh(None)]), &config()).unwrap();
    let mut ubo: GlobalParams<i64> = GlobalParams::new();
    assert!(ubo.is_changed());
    let sent = |drawn: &Vec<Result<DrawCommand<i64>, RenderError>>| {
        drawn.iter().map(|o| o.as_ref().unwrap().upload_global).collect::<Vec<bool>>()
    };
    let first = model.render(&Mat4::identity(), &mut ubo);
    assert_eq!(sent(&first), vec![true, true, true, true, true]);
    assert!(!ubo.is_changed());
    assert_eq!(cols(&ubo.get_mat_model()), cols(&Mat4::identity()));
    assert_eq!(ubo.get_lighting_strength(), 1);
    let again = model.render(&Mat4::identity(), &mut ubo);
    assert_eq!(sent(&again), vec![false, true, true, true, true]);
}

#[test]
fn equal_drawables_in_a_row_send_the_block_once() {
    let nodes = vec![mesh_node(0, None, 0), mesh_node(1, None, 0), mesh_node(2, None, 0)];
    let mut model = GltfModel::import(&doc(nodes, vec![plain_mesh(None)]), &config()).unwrap();
    let mut ubo: GlobalParams<i64> = GlobalParams::new();
    let sent: Vec<bool> =
        model.render(&Mat4::identity(), &mut ubo).iter().map(|o| o.as_ref().unwrap().upload_global).collect();
    assert_eq!(sent, vec![true, false, false]);
    let sent: Vec<bool> =
        model.render(&Mat4::identity(), &mut ubo).iter().map(|o| o.as_ref().unwrap().upload_global).collect();
    assert_eq!(sent, vec![false, false, false]);
    ubo.set_mat_view(&Mat4::from_translation(0, 0, 1));
    assert!(ubo.is_changed());
    let sent: Vec<bool> =
        model.render(&Mat4::identity(), &mut ubo).iter().map(|o| o.as_ref().unwrap().upload_global).collect();
    assert_eq!(sent, vec![true, false, false]);
    let sent: Vec<bool> = model
        .render(&Mat4::from_translation(5, 0, 0), &mut ubo)
        .iter()
        .map(|o| o.as_ref().unwrap().upload_global)
        .collect();
    assert_eq!(sent, vec![true, false, false]);
}

#[test]
fn parameter_block_marks_new_values_only() {
    let mut ubo: GlobalParams<i64> = GlobalParams::new();
    assert!(ubo.upload_changed());
    assert!(!ubo.upload_changed());
    ubo.set_lighting_strength(1);
    ubo.set_mat_model(&Mat4::identity());
    ubo.set_mat_view(&Mat4::identity());
    assert!(!ubo.is_changed());
    ubo.set_lighting_strength(2);
    assert!(ubo.is_changed());
    assert_eq!(ubo.get_lighting_strength(), 2);
    assert!(ubo.upload_changed());
    let m = Mat4::from_translation(1, 2, 3);
    ubo.set_mat_model(&m);
    assert!(ubo.is_changed());
    ubo.set_mat_model(&Mat4::identity());
    assert!(ubo.is_changed());
    assert!(ubo.upload_changed());
    ubo.set_mat_view(&m);
    assert_eq!(cols(&ubo.get_mat_view()), cols(&m));
    assert!(ubo.upload_changed());
    assert!(!ubo.is_changed());
    assert!(m.same(&Mat4::from_translation(1, 2, 3)));
    assert!(!m.same(&Mat4::from_translation(1, 2, 4)));
    assert!(Vec4::new(1i64, 2, 3, 4).same(&Vec4::new(1, 2, 3, 4)));
    assert!(!Vec4::new(1i64, 2, 3, 4).same(&Vec4::new(0, 2, 3, 4)));
}

#[test]
fn animated_node_moves_what_hangs_below_it() {
    let arm = node(0, None);
    let mut hand = mesh_node(1, Some(0), 0);
    hand.local = Mat4::from_translation(0, 0, 2);
    let other = mesh_node(2, None, 0);
    let mut d = doc(vec![arm, hand, other], vec![plain_mesh(None)]);
    d.animations = vec![anim("wave", vec![0])];
    let mut model = GltfModel::import(&d, &config()).unwrap();
    let target = model.animations()[model.animation(&"wave".to_string()).unwrap()].targets[0];
    assert_eq!(target, 1);
    let before = frame(&mut model, &Mat4::identity(), &Mat4::identity());
    assert_eq!(cols(&before[0].as_ref().unwrap().model_matrix), cols(&Mat4::from_translation(0, 0, 2)));
    assert!(!model.transform_hierarchy().is_dirty(2));
    model.set_local_transform(target, &Mat4::from_translation(7, 0, 0));
    assert!(model.transform_hierarchy().is_dirty(1));
    assert!(model.transform_hierarchy().is_dirty(2));
    assert!(!model.transform_hierarchy().is_dirty(3));
    assert!(!model.transform_hierarchy().is_dirty(0));
    let after = frame(&mut model, &Mat4::identity(), &Mat4::identity());
    assert_eq!(cols(&after[0].as_ref().unwrap().model_matrix), cols(&Mat4::from_translation(7, 0, 2)));
    assert_eq!(cols(&after[1].as_ref().unwrap().model_matrix), cols(&Mat4::identity()));
    assert!(!model.transform_hierarchy().is_dirty(2));
}

#[test]
fn joints_fit_the_joint_block() {
    let mut body = mesh_node(0, None, 0);
    body.skin = Some(0);
    let mut d = doc(vec![body], vec![plain_mesh(None)]);
    d.skins = vec![SourceSkin { joints: vec![SourceJoint { node: 0, inverse_bind_matrix: Mat4::identity() }; 4] }];
    let mut model = GltfModel::import(&d, &config()).unwrap();
    assert_eq!(model.max_joints(), 4);
    let drawn = frame(&mut model, &Mat4::identity(), &Mat4::identity());
    assert_eq!(drawn[0].as_ref().unwrap().joint_matrices.len(), 4);
    assert_eq!(GltfModel::import(&d, &ImportConfig::new(3)).err(), Some(ImportError::Resource));
}
