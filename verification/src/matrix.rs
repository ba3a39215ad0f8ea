use vstd::prelude::*;
use crate::scalar::Scalar;
use crate::error::RenderError;

verus! {

/// Three scalars: a direction, a position or a colour.
#[derive(Clone, Copy)]
pub struct Vec3<S: Scalar> {
    pub x: S,
    pub y: S,
    pub z: S,
}

/// A column of four scalars.
#[derive(Clone, Copy)]
pub struct Vec4<S: Scalar> {
    pub x: S,
    pub y: S,
    pub z: S,
    pub w: S,
}

/// A 4x4 matrix held by columns: `x`, `y`, `z` span the rotation block and
/// `w` carries the translation in its first three entries.
#[derive(Clone, Copy)]
pub struct Mat4<S: Scalar> {
    pub x: Vec4<S>,
    pub y: Vec4<S>,
    pub z: Vec4<S>,
    pub w: Vec4<S>,
}

impl<S: Scalar> Vec4<S> {
    /// Every entry multiplied by `s` on the right.
    pub open spec fn scaled(self, s: S) -> Vec4<S> {
        Vec4 { x: self.x.prod(s), y: self.y.prod(s), z: self.z.prod(s), w: self.w.prod(s) }
    }

    /// The entrywise sum.
    pub open spec fn added(self, rhs: Vec4<S>) -> Vec4<S> {
        Vec4 { x: self.x.sum(rhs.x), y: self.y.sum(rhs.y), z: self.z.sum(rhs.z), w: self.w.sum(rhs.w) }
    }

    pub fn new(x: S, y: S, z: S, w: S) -> (r: Vec4<S>)
        ensures
            r == (Vec4 { x, y, z, w }),
    {
        Vec4 { x, y, z, w }
    }

    pub fn same(&self, rhs: &Vec4<S>) -> (r: bool)
        ensures
            r == (*self == *rhs),
    {
        self.x.same(rhs.x) && self.y.same(rhs.y) && self.z.same(rhs.z) && self.w.same(rhs.w)
    }

    pub fn scale(&self, s: S) -> (r: Vec4<S>)
        ensures
            r == self.scaled(s),
    {
        Vec4 { x: self.x.times(s), y: self.y.times(s), z: self.z.times(s), w: self.w.times(s) }
    }

    pub fn plus(&self, rhs: &Vec4<S>) -> (r: Vec4<S>)
        ensures
            r == self.added(*rhs),
    {
        Vec4 { x: self.x.plus(rhs.x), y: self.y.plus(rhs.y), z: self.z.plus(rhs.z), w: self.w.plus(rhs.w) }
    }
}

impl<S: Scalar> Mat4<S> {
    /// The unit matrix.
    pub open spec fn identity_value() -> Mat4<S> {
        let o = S::zero_value();
        let i = S::one_value();
        Mat4 {
            x: Vec4 { x: i, y: o, z: o, w: o },
            y: Vec4 { x: o, y: i, z: o, w: o },
            z: Vec4 { x: o, y: o, z: i, w: o },
            w: Vec4 { x: o, y: o, z: o, w: i },
        }
    }

    /// The matrix that moves a point by `(x, y, z)`.
    pub open spec fn translation_value(x: S, y: S, z: S) -> Mat4<S> {
        let o = S::zero_value();
        let i = S::one_value();
        Mat4 {
            x: Vec4 { x: i, y: o, z: o, w: o },
            y: Vec4 { x: o, y: i, z: o, w: o },
            z: Vec4 { x: o, y: o, z: i, w: o },
            w: Vec4 { x, y, z, w: i },
        }
    }

    /// The matrix applied to the column `v`: the columns of `self` weighted
    /// by the entries of `v`, summed from the left.
    pub open spec fn applied(self, v: Vec4<S>) -> Vec4<S> {
        self.x.scaled(v.x).added(self.y.scaled(v.y)).added(self.z.scaled(v.z)).added(
            self.w.scaled(v.w),
        )
    }

    /// The matrix product `self x rhs`: column by column, `self` applied to
    /// the columns of `rhs`.
    pub open spec fn product(self, rhs: Mat4<S>) -> Mat4<S> {
        Mat4 {
            x: self.applied(rhs.x),
            y: self.applied(rhs.y),
            z: self.applied(rhs.z),
            w: self.applied(rhs.w),
        }
    }

    /// Rows and columns exchanged.
    pub open spec fn transposed(self) -> Mat4<S> {
        Mat4 {
            x: Vec4 { x: self.x.x, y: self.y.x, z: self.z.x, w: self.w.x },
            y: Vec4 { x: self.x.y, y: self.y.y, z: self.z.y, w: self.w.y },
            z: Vec4 { x: self.x.z, y: self.y.z, z: self.z.z, w: self.w.z },
            w: Vec4 { x: self.x.w, y: self.y.w, z: self.z.w, w: self.w.w },
        }
    }

    /// The camera-facing matrix for a view matrix and a model matrix: the
    /// transposed view with the bottom row's first three entries cleared,
    /// and the model's translation in place of the last column's.
    pub open spec fn billboard_value(view: Mat4<S>, model: Mat4<S>) -> Mat4<S> {
        let t = view.transposed();
        let o = S::zero_value();
        Mat4 {
            x: Vec4 { x: t.x.x, y: t.x.y, z: t.x.z, w: o },
            y: Vec4 { x: t.y.x, y: t.y.y, z: t.y.z, w: o },
            z: Vec4 { x: t.z.x, y: t.z.y, z: t.z.z, w: o },
            w: Vec4 { x: model.w.x, y: model.w.y, z: model.w.z, w: t.w.w },
        }
    }

    pub fn from_cols(x: Vec4<S>, y: Vec4<S>, z: Vec4<S>, w: Vec4<S>) -> (r: Mat4<S>)
        ensures
            r == (Mat4 { x, y, z, w }),
    {
        Mat4 { x, y, z, w }
    }

    pub fn identity() -> (r: Mat4<S>)
        ensures
            r == Self::identity_value(),
    {
        let o = S::zero();
        let i = S::one();
        Mat4 {
            x: Vec4 { x: i, y: o, z: o, w: o },
            y: Vec4 { x: o, y: i, z: o, w: o },
            z: Vec4 { x: o, y: o, z: i, w: o },
            w: Vec4 { x: o, y: o, z: o, w: i },
        }
    }

    pub fn from_translation(x: S, y: S, z: S) -> (r: Mat4<S>)
        ensures
            r == Self::translation_value(x, y, z),
    {
        let o = S::zero();
        let i = S::one();
        Mat4 {
            x: Vec4 { x: i, y: o, z: o, w: o },
            y: Vec4 { x: o, y: i, z: o, w: o },
            z: Vec4 { x: o, y: o, z: i, w: o },
            w: Vec4 { x, y, z, w: i },
        }
    }

    pub fn same(&self, rhs: &Mat4<S>) -> (r: bool)
        ensures
            r == (*self == *rhs),
    {
        self.x.same(&rhs.x) && self.y.same(&rhs.y) && self.z.same(&rhs.z) && self.w.same(&rhs.w)
    }

    pub fn apply(&self, v: &Vec4<S>) -> (r: Vec4<S>)
        ensures
            r == self.applied(*v),
    {
        let a = self.x.scale(v.x);
        let b = self.y.scale(v.y);
        let c = self.z.scale(v.z);
        let d = self.w.scale(v.w);
        a.plus(&b).plus(&c).plus(&d)
    }

    pub fn mul(&self, rhs: &Mat4<S>) -> (r: Mat4<S>)
        ensures
            r == self.product(*rhs),
    {
        Mat4 {
            x: self.apply(&rhs.x),
            y: self.apply(&rhs.y),
            z: self.apply(&rhs.z),
            w: self.apply(&rhs.w),
        }
    }

    pub fn transpose(&self) -> (r: Mat4<S>)
        ensures
            r == self.transposed(),
    {
        Mat4 {
            x: Vec4 { x: self.x.x, y: self.y.x, z: self.z.x, w: self.w.x },
            y: Vec4 { x: self.x.y, y: self.y.y, z: self.z.y, w: self.w.y },
            z: Vec4 { x: self.x.z, y: self.y.z, z: self.z.z, w: self.w.z },
            w: Vec4 { x: self.x.w, y: self.y.w, z: self.z.w, w: self.w.w },
        }
    }
}

/// The matrix of a camera-facing drawable.
///
/// Yaw-only billboarding (`keep_upright`) is refused; otherwise the result is
/// the transposed view matrix without its translation, carrying the model's
/// translation.
pub fn calc_billboard_matrix<S: Scalar>(view_mat: &Mat4<S>, model_mat: &Mat4<S>, keep_upright: bool) -> (r:
    Result<Mat4<S>, RenderError>)
    ensures
        keep_upright ==> r == Err::<Mat4<S>, RenderError>(RenderError::UprightBillboard),
        !keep_upright ==> r == Ok::<Mat4<S>, RenderError>(Mat4::billboard_value(*view_mat, *model_mat)),
{
    if keep_upright {
        return Err(RenderError::UprightBillboard);
    }
    let mut mat = view_mat.transpose();
    mat.x.w = S::zero();
    mat.y.w = S::zero();
    mat.z.w = S::zero();
    mat.w.x = model_mat.w.x;
    mat.w.y = model_mat.w.y;
    mat.w.z = model_mat.w.z;
    Ok(mat)
}

/// Under the unit view matrix a billboard keeps the unit rotation block and
/// takes exactly the model's translation.
pub proof fn lemma_billboard_identity_view<S: Scalar>(model: Mat4<S>)
    ensures
        Mat4::billboard_value(Mat4::<S>::identity_value(), model) == Mat4::translation_value(
            model.w.x,
            model.w.y,
            model.w.z,
        ),
{
}

} // verus!
