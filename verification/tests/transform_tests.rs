use dreamfield_renderer::matrix::{calc_billboard_matrix, Mat4, Vec4};
use dreamfield_renderer::error::RenderError;
use dreamfield_renderer::scalar::Scalar;
use dreamfield_renderer::transform::GltfTransformHierarchy;

fn cols(m: &Mat4<i64>) -> [[i64; 4]; 4] {
    [
        [m.x.x, m.x.y, m.x.z, m.x.w],
        [m.y.x, m.y.y, m.y.z, m.y.w],
        [m.z.x, m.z.y, m.z.z, m.z.w],
        [m.w.x, m.w.y, m.w.z, m.w.w],
    ]
}

fn sample(seed: i64) -> Mat4<i64> {
    let v = |k: i64| Vec4::new(seed + k, 2 * seed - k, k * k - seed, seed * k + 1);
    Mat4::from_cols(v(1), v(2), v(3), v(4))
}

#[test]
fn identity_is_the_unit_matrix() {
    let id: Mat4<i64> = Mat4::identity();
    assert_eq!(cols(&id), [[1, 0, 0, 0], [0, 1, 0, 0], [0, 0, 1, 0], [0, 0, 0, 1]]);
}

#[test]
fn product_of_translations_adds_them() {
    let a: Mat4<i64> = Mat4::from_translation(0, 2, 0);
    let b: Mat4<i64> = Mat4::from_translation(1, 0, 0);
    let p = a.mul(&b);
    assert_eq!(cols(&p), [[1, 0, 0, 0], [0, 1, 0, 0], [0, 0, 1, 0], [1, 2, 0, 1]]);
}

#[test]
fn product_is_rows_times_columns() {
    let a = Mat4::from_cols(
        Vec4::new(1i64, 2, 3, 4),
        Vec4::new(5, 6, 7, 8),
        Vec4::new(9, 10, 11, 12),
        Vec4::new(13, 14, 15, 16),
    );
    let b = Mat4::from_cols(
        Vec4::new(1i64, 0, 2, 0),
        Vec4::new(0, 1, 0, 3),
        Vec4::new(1, 1, 1, 1),
        Vec4::new(2, -1, 0, 1),
    );
    let p = a.mul(&b);
    assert_eq!(
        cols(&p),
        [[19, 22, 25, 28], [44, 48, 52, 56], [28, 32, 36, 40], [10, 12, 14, 16]]
    );
    let q = b.mul(&a);
    assert_ne!(cols(&p), cols(&q));
}

#[test]
fn product_with_identity_keeps_the_matrix() {
    let a = sample(3);
    let id: Mat4<i64> = Mat4::identity();
    assert_eq!(cols(&a.mul(&id)), cols(&a));
    assert_eq!(cols(&id.mul(&a)), cols(&a));
}

#[test]
fn transpose_exchanges_rows_and_columns() {
    let a = sample(5);
    let t = a.transpose();
    let (ca, ct) = (cols(&a), cols(&t));
    for c in 0..4 {
        for r in 0..4 {
            assert_eq!(ct[c][r], ca[r][c]);
        }
    }
    assert_eq!(cols(&t.transpose()), ca);
}

#[test]
fn apply_weights_the_columns() {
    let a = sample(2);
    let v = Vec4::new(1i64, 0, 0, 0);
    let r = a.apply(&v);
    assert_eq!([r.x, r.y, r.z, r.w], cols(&a)[0]);
    let s = Vec4::new(2i64, 3, 4, 5).scale(3);
    assert_eq!([s.x, s.y, s.z, s.w], [6, 9, 12, 15]);
    let t = Vec4::new(1i64, 2, 3, 4).plus(&Vec4::new(10, 20, 30, 40));
    assert_eq!([t.x, t.y, t.z, t.w], [11, 22, 33, 44]);
}

#[test]
fn billboard_under_identity_view_is_a_translation() {
    let view: Mat4<i64> = Mat4::identity();
    let mut model = sample(7);
    model.w = Vec4::new(4, -5, 6, 1);
    let b = calc_billboard_matrix(&view, &model, false).unwrap();
    assert_eq!(cols(&b), [[1, 0, 0, 0], [0, 1, 0, 0], [0, 0, 1, 0], [4, -5, 6, 1]]);
}

#[test]
fn billboard_transposes_the_view_and_drops_its_translation() {
    let view = Mat4::from_cols(
        Vec4::new(1i64, 2, 3, 0),
        Vec4::new(4, 5, 6, 0),
        Vec4::new(7, 8, 9, 0),
        Vec4::new(10, 11, 12, 1),
    );
    let model: Mat4<i64> = Mat4::from_translation(20, 30, 40);
    let b = calc_billboard_matrix(&view, &model, false).unwrap();
    assert_eq!(cols(&b), [[1, 4, 7, 0], [2, 5, 8, 0], [3, 6, 9, 0], [20, 30, 40, 1]]);
}

#[test]
fn upright_billboard_is_refused() {
    let view: Mat4<i64> = Mat4::identity();
    let model: Mat4<i64> = Mat4::from_translation(1, 2, 3);
    let r = calc_billboard_matrix(&view, &model, true);
    assert!(matches!(r, Err(RenderError::UprightBillboard)));
}

#[test]
fn new_hierarchy_has_an_identity_root() {
    let mut h: GltfTransformHierarchy<i64> = GltfTransformHierarchy::new();
    assert_eq!(h.root(), 0);
    assert_eq!(h.len(), 1);
    assert_eq!(h.parent(0), None);
    assert!(!h.is_dirty(0));
    assert_eq!(h.node_by_index(0), None);
    let id: Mat4<i64> = Mat4::identity();
    assert_eq!(cols(&h.local_transform(0)), cols(&id));
    assert_eq!(cols(&h.world_transform(0)), cols(&id));
}

#[test]
fn setting_the_root_transform_is_seen_at_once() {
    let mut h: GltfTransformHierarchy<i64> = GltfTransformHierarchy::new();
    let m = sample(11);
    h.set_transform(m);
    assert!(h.is_dirty(0));
    assert_eq!(cols(&h.world_transform(0)), cols(&m));
    assert!(!h.is_dirty(0));
}

#[test]
fn world_is_parent_world_times_local() {
    let mut h: GltfTransformHierarchy<i64> = GltfTransformHierarchy::new();
    let (a, b, c) = (sample(1), sample(2), sample(3));
    let ha = h.add_at_index(10, 0, a);
    let hb = h.add_at_index(11, ha, b);
    let hc = h.add_at_index(12, hb, c);
    assert_eq!((ha, hb, hc), (1, 2, 3));
    let root = sample(4);
    h.set_transform(root);
    let wc = h.world_transform(hc);
    assert_eq!(cols(&wc), cols(&root.mul(&a).mul(&b).mul(&c)));
    let wb = h.world_transform(hb);
    assert_eq!(cols(&wc), cols(&wb.mul(&c)));
    let edited = sample(9);
    h.set_local_transform(ha, edited);
    let wc = h.world_transform(hc);
    let wb = h.world_transform(hb);
    let wa = h.world_transform(ha);
    let w0 = h.world_transform(0);
    assert_eq!(cols(&wa), cols(&w0.mul(&edited)));
    assert_eq!(cols(&wb), cols(&wa.mul(&b)));
    assert_eq!(cols(&wc), cols(&wb.mul(&c)));
}

#[test]
fn an_edit_marks_the_subtree_and_nothing_else() {
    let mut h: GltfTransformHierarchy<i64> = GltfTransformHierarchy::new();
    let a = h.add_at_index(0, 0, sample(1));
    let b = h.add_at_index(1, a, sample(2));
    let c = h.add_at_index(2, 0, sample(3));
    let d = h.add_at_index(3, b, sample(4));
    for n in [a, b, c, d] {
        assert!(h.is_dirty(n));
        h.world_transform(n);
        assert!(!h.is_dirty(n));
    }
    h.set_local_transform(a, sample(5));
    assert!(!h.is_dirty(0));
    assert!(h.is_dirty(a));
    assert!(h.is_dirty(b));
    assert!(!h.is_dirty(c));
    assert!(h.is_dirty(d));
    h.world_transform(b);
    assert!(!h.is_dirty(a));
    assert!(!h.is_dirty(b));
    assert!(h.is_dirty(d));
}

#[test]
fn nodes_are_found_by_their_source_index() {
    let mut h: GltfTransformHierarchy<i64> = GltfTransformHierarchy::new();
    let a = h.add_at_index(7, 0, sample(1));
    let b = h.add_at_index(3, a, sample(2));
    assert_eq!(h.node_by_index(7), Some(a));
    assert_eq!(h.node_by_index(3), Some(b));
    assert_eq!(h.node_by_index(0), None);
    assert_eq!(h.parent(b), Some(a));
    assert_eq!(h.parent(a), Some(0));
    assert_eq!(h.len(), 3);
    let again = h.add_at_index(7, 0, sample(3));
    assert_eq!(h.node_by_index(7), Some(again));
    assert_ne!(again, a);
}

#[test]
fn integer_scalars_wrap() {
    assert_eq!(<i64 as Scalar>::zero(), 0);
    assert_eq!(<i64 as Scalar>::one(), 1);
    assert_eq!(Scalar::plus(i64::MAX, 1i64), i64::MIN);
    assert_eq!(Scalar::times(i64::MAX, 2i64), -2);
    assert_eq!(Scalar::times(6i64, 7i64), 42);
    assert!(Scalar::same(5i64, 5i64));
    assert!(!Scalar::same(5i64, -5i64));
}
