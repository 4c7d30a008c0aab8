use vstd::prelude::*;

verus! {

/// The meshes of the geometry table, by name.
#[allow(non_camel_case_types)]
#[derive(Clone, Copy, Debug, PartialEq, Eq, Structural)]
pub enum MeshID {
    /// The unit quad, centred on the origin.
    QUAD,
}

impl MeshID {
    /// The slot of the mesh in the geometry table.
    pub open spec fn spec_id(self) -> nat {
        match self {
            MeshID::QUAD => 0,
        }
    }

    pub fn id(self) -> (r: usize)
        ensures
            r == self.spec_id(),
    {
        match self {
            MeshID::QUAD => 0,
        }
    }
}

/// The triangle list of the quad: two counter-clockwise triangles over the
/// corners bottom-left (0), bottom-right (1), top-right (2) and top-left (3).
pub open spec fn quad_index_list() -> Seq<u16> {
    seq![0u16, 1, 2, 2, 3, 0]
}

pub fn quad_indices() -> (r: Vec<u16>)
    ensures
        r@ == quad_index_list(),
{
    let r: Vec<u16> = vec![0u16, 1, 2, 2, 3, 0];
    assert(r@ =~= quad_index_list());
    r
}

} // verus!
