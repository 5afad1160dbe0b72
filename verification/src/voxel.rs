use vstd::prelude::*;

verus! {

/// One cell of the world: a material identifier. Identifier 0 is empty space.
#[derive(Clone, Copy, Debug, PartialEq, Eq, Structural, Hash)]
pub struct Voxel {
    pub id: u16,
}

impl Voxel {
    /// Whether this voxel is empty space, which is so exactly for identifier 0.
    pub open spec fn spec_is_transparent(&self) -> bool {
        self.id == 0
    }

    /// The empty voxel.
    pub open spec fn empty() -> Voxel {
        Voxel { id: 0 }
    }

    #[verifier::when_used_as_spec(spec_is_transparent)]
    pub fn is_transparent(&self) -> (r: bool)
        ensures
            r == (self.id == 0),
    {
        self.id == 0
    }
}

impl Default for Voxel {
    fn default() -> (r: Voxel)
        ensures
            r == Voxel::empty(),
    {
        Voxel { id: 0 }
    }
}

impl From<u16> for Voxel {
    fn from(id: u16) -> (r: Voxel) {
        Voxel { id }
    }
}

impl vstd::std_specs::convert::FromSpecImpl<u16> for Voxel {
    open spec fn obeys_from_spec() -> bool {
        true
    }

    open spec fn from_spec(id: u16) -> Voxel {
        Voxel { id }
    }
}

} // verus!
