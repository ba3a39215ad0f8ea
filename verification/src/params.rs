use vstd::prelude::*;
use crate::scalar::Scalar;
use crate::matrix::Mat4;

verus! {

/// The parameters that every drawable of a frame shares, as they stand in
/// the block on the GPU or are about to: the block is sent only when a
/// value in it has changed since it was last sent.
pub struct GlobalParams<S: Scalar> {
    mat_view: Mat4<S>,
    mat_model: Mat4<S>,
    lighting_strength: S,
    changed: bool,
}

/// What a parameter block holds.
pub ghost struct GlobalParamsView<S: Scalar> {
    pub mat_view: Mat4<S>,
    pub mat_model: Mat4<S>,
    pub lighting_strength: S,
    /// Whether a value has changed since the block was last sent.
    pub pending: bool,
}

impl<S: Scalar> GlobalParamsView<S> {
    /// The block after the model matrix and the lighting strength of a
    /// drawable have been written and the block sent where needed.
    pub open spec fn drawn(self, model: Mat4<S>, strength: S) -> GlobalParamsView<S> {
        GlobalParamsView {
            mat_view: self.mat_view,
            mat_model: model,
            lighting_strength: strength,
            pending: false,
        }
    }

    /// Whether the block has to be sent once the model matrix and the
    /// lighting strength of a drawable have been written.
    pub open spec fn must_send(self, model: Mat4<S>, strength: S) -> bool {
        self.pending || self.mat_model != model || self.lighting_strength != strength
    }
}

impl<S: Scalar> View for GlobalParams<S> {
    type V = GlobalParamsView<S>;

    closed spec fn view(&self) -> GlobalParamsView<S> {
        GlobalParamsView {
            mat_view: self.mat_view,
            mat_model: self.mat_model,
            lighting_strength: self.lighting_strength,
            pending: self.changed,
        }
    }
}

impl<S: Scalar> GlobalParams<S> {
    /// A block with unit matrices and full lighting strength that has yet
    /// to be sent.
    pub fn new() -> (r: Self)
        ensures
            r@ == (GlobalParamsView {
                mat_view: Mat4::<S>::identity_value(),
                mat_model: Mat4::<S>::identity_value(),
                lighting_strength: S::one_value(),
                pending: true,
            }),
    {
        GlobalParams {
            mat_view: Mat4::identity(),
            mat_model: Mat4::identity(),
            lighting_strength: S::one(),
            changed: true,
        }
    }

    pub fn get_mat_view(&self) -> (r: Mat4<S>)
        ensures
            r == self@.mat_view,
    {
        self.mat_view
    }

    pub fn get_mat_model(&self) -> (r: Mat4<S>)
        ensures
            r == self@.mat_model,
    {
        self.mat_model
    }

    pub fn get_lighting_strength(&self) -> (r: S)
        ensures
            r == self@.lighting_strength,
    {
        self.lighting_strength
    }

    /// Whether a value has changed since the block was last sent.
    pub fn is_changed(&self) -> (r: bool)
        ensures
            r == self@.pending,
    {
        self.changed
    }

    /// Writes the view matrix; the block is marked only if the value is new.
    pub fn set_mat_view(&mut self, m: &Mat4<S>)
        ensures
            final(self)@ == (GlobalParamsView {
                mat_view: *m,
                pending: old(self)@.pending || old(self)@.mat_view != *m,
                ..old(self)@
            }),
    {
        if !self.mat_view.same(m) {
            self.mat_view = *m;
            self.changed = true;
        }
    }

    /// Writes the model matrix; the block is marked only if the value is
    /// new.
    pub fn set_mat_model(&mut self, m: &Mat4<S>)
        ensures
            final(self)@ == (GlobalParamsView {
                mat_model: *m,
                pending: old(self)@.pending || old(self)@.mat_model != *m,
                ..old(self)@
            }),
    {
        if !self.mat_model.same(m) {
            self.mat_model = *m;
            self.changed = true;
        }
    }

    /// Writes the lighting strength; the block is marked only if the value
    /// is new.
    pub fn set_lighting_strength(&mut self, strength: S)
        ensures
            final(self)@ == (GlobalParamsView {
                lighting_strength: strength,
                pending: old(self)@.pending || old(self)@.lighting_strength != strength,
                ..old(self)@
            }),
    {
        if !self.lighting_strength.same(strength) {
            self.lighting_strength = strength;
            self.changed = true;
        }
    }

    /// Says whether the block has to be sent, and takes it as sent.
    pub fn upload_changed(&mut self) -> (send: bool)
        ensures
            send == old(self)@.pending,
            final(self)@ == (GlobalParamsView { pending: false, ..old(self)@ }),
    {
        let send = self.changed;
        self.changed = false;
        send
    }
}

} // verus!
