use cgmath::{Matrix, SquareMatrix};
use dreamfield_renderer::matrix::{calc_billboard_matrix, Mat4, Vec4};
use dreamfield_renderer::scalar::Scalar;
use dreamfield_renderer::transform::GltfTransformHierarchy;

#[derive(Clone, Copy, Debug, PartialEq)]
struct F(f32);

impl Scalar for F {
    fn zero_value() -> F {
        F(0.0)
    }

    fn one_value() -> F {
        F(1.0)
    }

    fn sum(self, rhs: F) -> F {
        F(self.0 + rhs.0)
    }

    fn prod(self, rhs: F) -> F {
        F(self.0 * rhs.0)
    }

    fn zero() -> F {
        F(0.0)
    }

    fn one() -> F {
        F(1.0)
    }

    fn plus(self, rhs: F) -> F {
        F(self.0 + rhs.0)
    }

    fn times(self, rhs: F) -> F {
        F(self.0 * rhs.0)
    }

    fn same(self, rhs: F) -> bool {
        self.0.to_bits() == rhs.0.to_bits()
    }
}

fn to_lib(m: &cgmath::Matrix4<f32>) -> Mat4<F> {
    let c = |v: cgmath::Vector4<f32>| Vec4::new(F(v.x), F(v.y), F(v.z), F(v.w));
    Mat4::from_cols(c(m.x), c(m.y), c(m.z), c(m.w))
}

fn to_cg(m: &Mat4<F>) -> cgmath::Matrix4<f32> {
    let c = |v: &Vec4<F>| cgmath::Vector4::new(v.x.0, v.y.0, v.z.0, v.w.0);
    cgmath::Matrix4::from_cols(c(&m.x), c(&m.y), c(&m.z), c(&m.w))
}

fn sample(seed: f32) -> cgmath::Matrix4<f32> {
    cgmath::Matrix4::new(
        0.3 + seed, 1.7, -2.9, 0.11,
        4.1, seed * 0.7, 0.013, -7.5,
        1.0e-3, 2.5e3, seed - 9.0, 0.5,
        3.3, -0.1, 12.25, 1.0,
    )
}

#[test]
fn float_product_agrees_with_cgmath() {
    for (a, b) in [(sample(0.1), sample(2.3)), (sample(-4.0), sample(0.77)), (sample(1.0e4), sample(1.0e-4))] {
        let ours = to_lib(&a).mul(&to_lib(&b));
        assert_eq!(to_cg(&ours), a * b);
    }
}

#[test]
fn float_transpose_and_identity_agree_with_cgmath() {
    let a = sample(0.5);
    assert_eq!(to_cg(&to_lib(&a).transpose()), a.transpose());
    let id: Mat4<F> = Mat4::identity();
    assert_eq!(to_cg(&id), cgmath::Matrix4::identity());
    let t: Mat4<F> = Mat4::from_translation(F(1.5), F(-2.0), F(0.25));
    assert_eq!(to_cg(&t), cgmath::Matrix4::from_translation(cgmath::vec3(1.5, -2.0, 0.25)));
}

#[test]
fn float_billboard_keeps_the_translation() {
    let view = to_lib(&cgmath::Matrix4::identity());
    let model = to_lib(&(cgmath::Matrix4::from_translation(cgmath::vec3(1.0, 2.0, 3.0)) * sample(0.2)));
    let b = to_cg(&calc_billboard_matrix(&view, &model, false).unwrap());
    assert_eq!(b.x, cgmath::vec4(1.0, 0.0, 0.0, 0.0));
    assert_eq!(b.y, cgmath::vec4(0.0, 1.0, 0.0, 0.0));
    assert_eq!(b.z, cgmath::vec4(0.0, 0.0, 1.0, 0.0));
    assert_eq!((b.w.x, b.w.y, b.w.z), (model.w.x.0, model.w.y.0, model.w.z.0));
}

#[test]
fn float_world_transform_agrees_with_cgmath() {
    let mut h: GltfTransformHierarchy<F> = GltfTransformHierarchy::new();
    let (r, a, b) = (sample(0.3), sample(1.1), sample(-0.6));
    h.set_transform(to_lib(&r));
    let ha = h.add_at_index(0, 0, to_lib(&a));
    let hb = h.add_at_index(1, ha, to_lib(&b));
    assert_eq!(to_cg(&h.world_transform(hb)), (r * a) * b);
}
