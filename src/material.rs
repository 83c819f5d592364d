use vstd::prelude::*;

verus! {

/// The phase function of a participating medium: it scatters uniformly in
/// every direction and takes its color from a texture.
pub struct Isotropic<T> {
    texture: T,
}

impl<T> Isotropic<T> {
    pub closed spec fn spec_texture(&self) -> T {
        self.texture
    }

    pub fn new(texture: T) -> (r: Self)
        ensures
            r.spec_texture() == texture,
    {
        Self { texture }
    }

    /// The texture that colors the scattered light.
    pub fn texture(&self) -> (r: &T)
        ensures
            *r == self.spec_texture(),
    {
        &self.texture
    }
}

/// The last step of a builder: give the shape its material.
pub trait MaterialBuilder<T> {
    type Finished;

    fn material(self, material: T) -> Self::Finished;
}

} // verus!
