//! Which of the two terrain meshes are on screen.
use vstd::prelude::*;

verus! {

/// Visibility of the solid mesh and of the wireframe mesh.
#[derive(Clone, Copy, PartialEq, Eq, Debug, Structural)]
pub struct Layers {
    pub solid: bool,
    pub wireframe: bool,
}

impl Layers {
    /// Both meshes shown.
    pub fn new() -> (r: Layers)
        ensures
            r.solid,
            r.wireframe,
    {
        Layers { solid: true, wireframe: true }
    }

    /// Applies the keys pressed in one frame: the wireframe key shows the
    /// wireframe if it was hidden and hides it if it was shown; the solid key
    /// does the same for the solid mesh.
    pub fn apply_keys(&mut self, wireframe_key: bool, solid_key: bool)
        ensures
            final(self).wireframe == (old(self).wireframe != wireframe_key),
            final(self).solid == (old(self).solid != solid_key),
    {
        if wireframe_key {
            self.wireframe = !self.wireframe;
        }
        if solid_key {
            self.solid = !self.solid;
        }
    }
}

} // verus!
