use std::cmp::Ordering;
use vstd::prelude::*;
use crate::vec3::Vec3i;

verus! {

/// The place of a chunk on the chunk lattice, in which one unit is one chunk
/// edge. Positions are ordered lexicographically by x, then y, then z.
#[derive(Clone, Copy, Debug, PartialEq, Eq, Structural, Hash, Ord)]
pub struct ChunkPosition {
    pub pos: Vec3i,
}

impl ChunkPosition {
    /// The position with the coordinates `pos`.
    pub fn new(pos: Vec3i) -> (r: ChunkPosition)
        ensures
            r.pos == pos,
    {
        ChunkPosition { pos }
    }

    /// How `self` stands to `other` in the lexicographic order on (x, y, z).
    pub open spec fn lex_order(&self, other: ChunkPosition) -> Ordering {
        if self.pos.x < other.pos.x {
            Ordering::Less
        } else if self.pos.x > other.pos.x {
            Ordering::Greater
        } else if self.pos.y < other.pos.y {
            Ordering::Less
        } else if self.pos.y > other.pos.y {
            Ordering::Greater
        } else if self.pos.z < other.pos.z {
            Ordering::Less
        } else if self.pos.z > other.pos.z {
            Ordering::Greater
        } else {
            Ordering::Equal
        }
    }

    /// Compares two positions by x, then by y, then by z.
    pub fn compare(&self, other: &ChunkPosition) -> (r: Ordering)
        ensures
            r == self.lex_order(*other),
    {
        if self.pos.x < other.pos.x {
            Ordering::Less
        } else if self.pos.x > other.pos.x {
            Ordering::Greater
        } else if self.pos.y < other.pos.y {
            Ordering::Less
        } else if self.pos.y > other.pos.y {
            Ordering::Greater
        } else if self.pos.z < other.pos.z {
            Ordering::Less
        } else if self.pos.z > other.pos.z {
            Ordering::Greater
        } else {
            Ordering::Equal
        }
    }
}

impl PartialOrd for ChunkPosition {
    fn partial_cmp(&self, other: &ChunkPosition) -> (r: Option<Ordering>) {
        Some(self.compare(other))
    }
}

impl vstd::std_specs::cmp::PartialOrdSpecImpl for ChunkPosition {
    open spec fn obeys_partial_cmp_spec() -> bool {
        true
    }

    open spec fn partial_cmp_spec(&self, other: &ChunkPosition) -> Option<Ordering> {
        Some(self.lex_order(*other))
    }
}

impl From<Vec3i> for ChunkPosition {
    fn from(value: Vec3i) -> (r: ChunkPosition) {
        ChunkPosition::new(value)
    }
}

impl vstd::std_specs::convert::FromSpecImpl<Vec3i> for ChunkPosition {
    open spec fn obeys_from_spec() -> bool {
        true
    }

    open spec fn from_spec(value: Vec3i) -> ChunkPosition {
        ChunkPosition { pos: value }
    }
}

impl Default for ChunkPosition {
    fn default() -> (r: ChunkPosition)
        ensures
            r.pos == (Vec3i { x: 0, y: 0, z: 0 }),
    {
        ChunkPosition { pos: Vec3i::zeros() }
    }
}

/// The order on chunk positions is total: two positions compare equal exactly
/// when they are the same position, swapping the arguments reverses the answer,
/// and "comes before" is transitive.
pub proof fn lemma_lex_order_total(a: ChunkPosition, b: ChunkPosition, c: ChunkPosition)
    ensures
        a.lex_order(b) == Ordering::Equal <==> a == b,
        a.lex_order(b) == Ordering::Less <==> b.lex_order(a) == Ordering::Greater,
        a.lex_order(b) == Ordering::Less && b.lex_order(c) == Ordering::Less ==> a.lex_order(c)
            == Ordering::Less,
{
}

} // verus!
