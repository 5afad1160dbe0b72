use vstd::prelude::*;
use crate::vec3::Vec3i;

verus! {

/// A set of the six axis-aligned directions. East and west are the positive and
/// the negative x direction, up and down those of y, south and north those of z.
///
/// A set with exactly one member names a face of a cube; the other sets name
/// its edges and corners, or nothing.
#[derive(Clone, Copy, Debug, PartialEq, Eq, Structural, Hash)]
pub struct Directions {
    pub up: bool,
    pub down: bool,
    pub north: bool,
    pub south: bool,
    pub east: bool,
    pub west: bool,
}

impl Directions {
    /// The number of directions in the set.
    pub open spec fn count(&self) -> int {
        (if self.up { 1int } else { 0 }) + (if self.down { 1int } else { 0 })
            + (if self.north { 1int } else { 0 }) + (if self.south { 1int } else { 0 })
            + (if self.east { 1int } else { 0 }) + (if self.west { 1int } else { 0 })
    }

    /// Whether the set holds exactly one direction.
    pub open spec fn spec_is_face(&self) -> bool {
        self.count() == 1
    }

    /// Whether the set holds no direction.
    pub open spec fn spec_is_empty(&self) -> bool {
        self.count() == 0
    }

    /// The sum of the unit vectors of the directions in the set.
    pub open spec fn offset(&self) -> (int, int, int) {
        (
            (if self.east { 1int } else { 0 }) - (if self.west { 1int } else { 0 }),
            (if self.up { 1int } else { 0 }) - (if self.down { 1int } else { 0 }),
            (if self.south { 1int } else { 0 }) - (if self.north { 1int } else { 0 }),
        )
    }

    /// The set in which each direction is replaced by its opposite.
    pub open spec fn spec_invert(&self) -> Directions {
        Directions {
            up: self.down,
            down: self.up,
            north: self.south,
            south: self.north,
            east: self.west,
            west: self.east,
        }
    }

    /// The set of the directions that are in `self` or in `other`.
    pub open spec fn spec_union(&self, other: Directions) -> Directions {
        Directions {
            up: self.up || other.up,
            down: self.down || other.down,
            north: self.north || other.north,
            south: self.south || other.south,
            east: self.east || other.east,
            west: self.west || other.west,
        }
    }

    /// Whether every direction of `other` is in `self`.
    pub open spec fn spec_contains(&self, other: Directions) -> bool {
        &&& other.up ==> self.up
        &&& other.down ==> self.down
        &&& other.north ==> self.north
        &&& other.south ==> self.south
        &&& other.east ==> self.east
        &&& other.west ==> self.west
    }

    /// The set whose directions point along the non-zero components of `v`.
    pub open spec fn spec_from_vec(v: Vec3i) -> Directions {
        Directions {
            up: v.y > 0,
            down: v.y < 0,
            north: v.z < 0,
            south: v.z > 0,
            east: v.x > 0,
            west: v.x < 0,
        }
    }

    /// The six faces in the order in which `faces` lists them.
    pub open spec fn face_seq() -> Seq<Directions> {
        seq![
            Directions::spec_up(),
            Directions::spec_down(),
            Directions::spec_north(),
            Directions::spec_south(),
            Directions::spec_east(),
            Directions::spec_west(),
        ]
    }

    /// The empty set.
    pub open spec fn spec_empty() -> Directions {
        Directions { up: false, down: false, north: false, south: false, east: false, west: false }
    }

    /// The set of all six directions.
    pub open spec fn spec_all() -> Directions {
        Directions { up: true, down: true, north: true, south: true, east: true, west: true }
    }

    /// The positive y direction alone.
    pub open spec fn spec_up() -> Directions {
        Directions { up: true, ..Directions::spec_empty() }
    }

    /// The negative y direction alone.
    pub open spec fn spec_down() -> Directions {
        Directions { down: true, ..Directions::spec_empty() }
    }

    /// The negative z direction alone.
    pub open spec fn spec_north() -> Directions {
        Directions { north: true, ..Directions::spec_empty() }
    }

    /// The positive z direction alone.
    pub open spec fn spec_south() -> Directions {
        Directions { south: true, ..Directions::spec_empty() }
    }

    /// The positive x direction alone.
    pub open spec fn spec_east() -> Directions {
        Directions { east: true, ..Directions::spec_empty() }
    }

    /// The negative x direction alone.
    pub open spec fn spec_west() -> Directions {
        Directions { west: true, ..Directions::spec_empty() }
    }

    /// The empty set.
    #[verifier::when_used_as_spec(spec_empty)]
    pub fn empty() -> (r: Directions)
        ensures
            r == Directions::spec_empty(),
    {
        Directions { up: false, down: false, north: false, south: false, east: false, west: false }
    }

    /// The set of all six directions.
    #[verifier::when_used_as_spec(spec_all)]
    pub fn all() -> (r: Directions)
        ensures
            r == Directions::spec_all(),
    {
        Directions { up: true, down: true, north: true, south: true, east: true, west: true }
    }

    /// The positive y direction alone.
    #[verifier::when_used_as_spec(spec_up)]
    pub fn up() -> (r: Directions)
        ensures
            r == Directions::spec_up(),
    {
        Directions { up: true, down: false, north: false, south: false, east: false, west: false }
    }

    /// The negative y direction alone.
    #[verifier::when_used_as_spec(spec_down)]
    pub fn down() -> (r: Directions)
        ensures
            r == Directions::spec_down(),
    {
        Directions { up: false, down: true, north: false, south: false, east: false, west: false }
    }

    /// The negative z direction alone.
    #[verifier::when_used_as_spec(spec_north)]
    pub fn north() -> (r: Directions)
        ensures
            r == Directions::spec_north(),
    {
        Directions { up: false, down: false, north: true, south: false, east: false, west: false }
    }

    /// The positive z direction alone.
    #[verifier::when_used_as_spec(spec_south)]
    pub fn south() -> (r: Directions)
        ensures
            r == Directions::spec_south(),
    {
        Directions { up: false, down: false, north: false, south: true, east: false, west: false }
    }

    /// The positive x direction alone.
    #[verifier::when_used_as_spec(spec_east)]
    pub fn east() -> (r: Directions)
        ensures
            r == Directions::spec_east(),
    {
        Directions { up: false, down: false, north: false, south: false, east: true, west: false }
    }

    /// The negative x direction alone.
    #[verifier::when_used_as_spec(spec_west)]
    pub fn west() -> (r: Directions)
        ensures
            r == Directions::spec_west(),
    {
        Directions { up: false, down: false, north: false, south: false, east: false, west: true }
    }

    /// The six faces, each as a set of its own: up, down, north, south, east, west.
    pub fn faces() -> (r: [Directions; 6])
        ensures
            r@ == Directions::face_seq(),
    {
        let r = [
            Directions::up(),
            Directions::down(),
            Directions::north(),
            Directions::south(),
            Directions::east(),
            Directions::west(),
        ];
        assert(r@ =~= Directions::face_seq());
        r
    }

    /// Whether the set holds exactly one direction.
    #[verifier::when_used_as_spec(spec_is_face)]
    pub fn is_face(&self) -> (r: bool)
        ensures
            r == self.spec_is_face(),
    {
        let mut n: u8 = 0;
        if self.up {
            n = n + 1;
        }
        if self.down {
            n = n + 1;
        }
        if self.north {
            n = n + 1;
        }
        if self.south {
            n = n + 1;
        }
        if self.east {
            n = n + 1;
        }
        if self.west {
            n = n + 1;
        }
        n == 1
    }

    /// Whether the set holds no direction.
    #[verifier::when_used_as_spec(spec_is_empty)]
    pub fn is_empty(&self) -> (r: bool)
        ensures
            r == self.spec_is_empty(),
    {
        !(self.up || self.down || self.north || self.south || self.east || self.west)
    }

    /// The sum of the unit vectors of the directions in the set. Two opposite
    /// directions cancel.
    pub fn to_vec(&self) -> (v: Vec3i)
        ensures
            (v.x as int, v.y as int, v.z as int) == self.offset(),
    {
        let mut x: i32 = 0;
        let mut y: i32 = 0;
        let mut z: i32 = 0;
        if self.east {
            x = x + 1;
        }
        if self.west {
            x = x - 1;
        }
        if self.up {
            y = y + 1;
        }
        if self.down {
            y = y - 1;
        }
        if self.south {
            z = z + 1;
        }
        if self.north {
            z = z - 1;
        }
        Vec3i { x, y, z }
    }

    /// The set in which each direction is replaced by its opposite.
    #[verifier::when_used_as_spec(spec_invert)]
    pub fn invert(&self) -> (r: Directions)
        ensures
            r == self.spec_invert(),
    {
        Directions {
            up: self.down,
            down: self.up,
            north: self.south,
            south: self.north,
            east: self.west,
            west: self.east,
        }
    }

    /// The set of the directions that are in `self` or in `other`.
    #[verifier::when_used_as_spec(spec_union)]
    pub fn union(&self, other: Directions) -> (r: Directions)
        ensures
            r == self.spec_union(other),
    {
        Directions {
            up: self.up || other.up,
            down: self.down || other.down,
            north: self.north || other.north,
            south: self.south || other.south,
            east: self.east || other.east,
            west: self.west || other.west,
        }
    }

    /// Whether every direction of `other` is in `self`.
    #[verifier::when_used_as_spec(spec_contains)]
    pub fn contains(&self, other: Directions) -> (r: bool)
        ensures
            r == self.spec_contains(other),
    {
        (!other.up || self.up) && (!other.down || self.down) && (!other.north || self.north) && (
        !other.south || self.south) && (!other.east || self.east) && (!other.west || self.west)
    }
}

impl From<Vec3i> for Directions {
    /// The set whose directions point along the non-zero components of `v`.
    fn from(v: Vec3i) -> (r: Directions) {
        Directions {
            up: v.y > 0,
            down: v.y < 0,
            north: v.z < 0,
            south: v.z > 0,
            east: v.x > 0,
            west: v.x < 0,
        }
    }
}

impl vstd::std_specs::convert::FromSpecImpl<Vec3i> for Directions {
    open spec fn obeys_from_spec() -> bool {
        true
    }

    open spec fn from_spec(v: Vec3i) -> Directions {
        Directions::spec_from_vec(v)
    }
}

/// Inverting a set twice gives the set back, and the offset of the inverted set
/// is the negated offset.
pub proof fn lemma_invert(d: Directions)
    ensures
        d.spec_invert().spec_invert() == d,
        d.spec_invert().count() == d.count(),
        d.spec_invert().offset() == (-d.offset().0, -d.offset().1, -d.offset().2),
{
}

/// Reading a set back from its offset keeps a face as it is; in general it
/// drops each pair of opposite directions.
pub proof fn lemma_from_offset(d: Directions, v: Vec3i)
    requires
        (v.x as int, v.y as int, v.z as int) == d.offset(),
    ensures
        d.spec_is_face() ==> Directions::spec_from_vec(v) == d,
        Directions::spec_from_vec(v) == (Directions {
            up: d.up && !d.down,
            down: d.down && !d.up,
            north: d.north && !d.south,
            south: d.south && !d.north,
            east: d.east && !d.west,
            west: d.west && !d.east,
        }),
{
}

} // verus!
