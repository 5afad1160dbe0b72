//! The geometry that meshing accumulates: one unit square for each visible
//! voxel face, as four lattice points, four normals and two triangles.

use vstd::prelude::*;
use crate::directions::Directions;
use crate::vec3::Vec3i;

verus! {

/// One face of one voxel: the voxel's index and the direction the face looks in.
#[derive(Clone, Copy, Debug, PartialEq, Eq, Structural, Hash)]
pub struct Quad {
    pub cell: Vec3i,
    pub dir: Directions,
}

/// The corner of the unit square at which each of the six vertex indices of a
/// quad points: two triangles, (0, 1, 2) and (0, 2, 3).
pub open spec fn triangle_corner(j: int) -> int {
    if j == 0 {
        0
    } else if j == 1 {
        1
    } else if j == 2 {
        2
    } else if j == 3 {
        0
    } else if j == 4 {
        2
    } else {
        3
    }
}

/// The first of the two unit vectors that span the face looking in `dir`.
/// The vectors are picked so that the cross product of the first and the
/// second is the outward normal.
pub open spec fn tangent_one(dir: Directions) -> (int, int, int) {
    if dir.east {
        (0, 1, 0)
    } else if dir.west {
        (0, 0, 1)
    } else if dir.up {
        (0, 0, 1)
    } else if dir.down {
        (1, 0, 0)
    } else if dir.south {
        (1, 0, 0)
    } else {
        (0, 1, 0)
    }
}

/// The second of the two unit vectors that span the face looking in `dir`.
pub open spec fn tangent_two(dir: Directions) -> (int, int, int) {
    if dir.east {
        (0, 0, 1)
    } else if dir.west {
        (0, 1, 0)
    } else if dir.up {
        (1, 0, 0)
    } else if dir.down {
        (0, 0, 1)
    } else if dir.south {
        (0, 1, 0)
    } else {
        (1, 0, 0)
    }
}

/// Corner `j` (0 to 3) of the unit square that is the face of the voxel `cell`
/// looking in `dir`, on the lattice whose points are the voxels' corners: the
/// voxel at index `(x, y, z)` fills the cube from `(x, y, z)` to `(x+1, y+1, z+1)`.
/// The corners go round the square counter-clockwise as seen from outside.
pub open spec fn quad_corner(cell: (int, int, int), dir: Directions, j: int) -> (int, int, int) {
    let n = dir.offset();
    let a = tangent_one(dir);
    let b = tangent_two(dir);
    let ua: int = if j == 1 || j == 2 { 1 } else { 0 };
    let ub: int = if j == 2 || j == 3 { 1 } else { 0 };
    (
        cell.0 + (if n.0 > 0 { 1int } else { 0 }) + ua * a.0 + ub * b.0,
        cell.1 + (if n.1 > 0 { 1int } else { 0 }) + ua * a.1 + ub * b.1,
        cell.2 + (if n.2 > 0 { 1int } else { 0 }) + ua * a.2 + ub * b.2,
    )
}

/// The coordinates of a vector as mathematical integers.
pub open spec fn coords(v: Vec3i) -> (int, int, int) {
    (v.x as int, v.y as int, v.z as int)
}

/// Renderable geometry: for each quad four vertex positions, four normals and
/// six vertex indices. The view is the sequence of quads that were inserted.
pub struct ChunkMeshData {
    positions: Vec<Vec3i>,
    normals: Vec<Vec3i>,
    indices: Vec<u32>,
    quads: Ghost<Seq<Quad>>,
}

impl View for ChunkMeshData {
    type V = Seq<Quad>;

    closed spec fn view(&self) -> Seq<Quad> {
        self.quads@
    }
}

impl ChunkMeshData {
    /// The largest number of quads a mesh can hold: four vertices a quad, and
    /// every vertex index fits in `u32`.
    pub open spec fn capacity() -> int {
        0x3fff_ffff
    }

    /// The buffers hold, quad by quad, what `quad_corner`, the direction's
    /// offset and `triangle_corner` say.
    pub closed spec fn wf(&self) -> bool {
        let n = self.quads@.len() as int;
        &&& n <= Self::capacity()
        &&& self.positions@.len() == 4 * n
        &&& self.normals@.len() == 4 * n
        &&& self.indices@.len() == 6 * n
        &&& forall|i: int| 0 <= i < n ==> (#[trigger] self.quads@[i]).dir.spec_is_face()
        &&& forall|i: int, j: int|
            0 <= i < n && 0 <= j < 4 ==> coords(#[trigger] self.positions@[4 * i + j])
                == quad_corner(coords(self.quads@[i].cell), self.quads@[i].dir, j)
        &&& forall|i: int, j: int|
            0 <= i < n && 0 <= j < 4 ==> coords(#[trigger] self.normals@[4 * i + j])
                == self.quads@[i].dir.offset()
        &&& forall|i: int, j: int|
            0 <= i < n && 0 <= j < 6 ==> (#[trigger] self.indices@[6 * i + j]) as int == 4 * i
                + triangle_corner(j)
    }

    /// The vertex positions, four for each quad.
    pub closed spec fn spec_positions(&self) -> Seq<Vec3i> {
        self.positions@
    }

    /// The vertex normals, four for each quad.
    pub closed spec fn spec_normals(&self) -> Seq<Vec3i> {
        self.normals@
    }

    /// The vertex indices, six for each quad.
    pub closed spec fn spec_indices(&self) -> Seq<u32> {
        self.indices@
    }

    /// A mesh without quads.
    pub fn new() -> (r: ChunkMeshData)
        ensures
            r.wf(),
            r@ == Seq::<Quad>::empty(),
    {
        ChunkMeshData {
            positions: Vec::new(),
            normals: Vec::new(),
            indices: Vec::new(),
            quads: Ghost(Seq::empty()),
        }
    }

    /// Appends the face of the voxel `cell` that looks in `dir`.
    pub fn insert_quad(&mut self, cell: Vec3i, dir: Directions)
        requires
            old(self).wf(),
            old(self)@.len() < Self::capacity(),
            dir.spec_is_face(),
            cell.x < i32::MAX && cell.y < i32::MAX && cell.z < i32::MAX,
        ensures
            final(self).wf(),
            final(self)@ == old(self)@.push(Quad { cell, dir }),
    {
        let normal = dir.to_vec();
        let ox: i32 = if dir.east { 1 } else { 0 };
        let oy: i32 = if dir.up { 1 } else { 0 };
        let oz: i32 = if dir.south { 1 } else { 0 };
        let (a, b): (Vec3i, Vec3i) = if dir.east {
            (Vec3i::new(0, 1, 0), Vec3i::new(0, 0, 1))
        } else if dir.west {
            (Vec3i::new(0, 0, 1), Vec3i::new(0, 1, 0))
        } else if dir.up {
            (Vec3i::new(0, 0, 1), Vec3i::new(1, 0, 0))
        } else if dir.down {
            (Vec3i::new(1, 0, 0), Vec3i::new(0, 0, 1))
        } else if dir.south {
            (Vec3i::new(1, 0, 0), Vec3i::new(0, 1, 0))
        } else {
            (Vec3i::new(0, 1, 0), Vec3i::new(1, 0, 0))
        };
        let base = Vec3i::new(cell.x + ox, cell.y + oy, cell.z + oz);
        let first: u32 = self.positions.len() as u32;
        self.positions.push(base);
        self.positions.push(Vec3i::new(base.x + a.x, base.y + a.y, base.z + a.z));
        self.positions.push(
            Vec3i::new(base.x + a.x + b.x, base.y + a.y + b.y, base.z + a.z + b.z),
        );
        self.positions.push(Vec3i::new(base.x + b.x, base.y + b.y, base.z + b.z));
        self.normals.push(normal);
        self.normals.push(normal);
        self.normals.push(normal);
        self.normals.push(normal);
        self.indices.push(first);
        self.indices.push(first + 1);
        self.indices.push(first + 2);
        self.indices.push(first);
        self.indices.push(first + 2);
        self.indices.push(first + 3);
        self.quads = Ghost(self.quads@.push(Quad { cell, dir }));
    }

    /// The number of quads in the mesh.
    pub fn len(&self) -> (n: usize)
        ensures
            self.wf() ==> n == self@.len(),
    {
        self.indices.len() / 6
    }

    /// The vertex positions, four for each quad.
    pub fn positions(&self) -> (r: &Vec<Vec3i>)
        ensures
            r@ == self.spec_positions(),
    {
        &self.positions
    }

    /// The vertex normals, four for each quad.
    pub fn normals(&self) -> (r: &Vec<Vec3i>)
        ensures
            r@ == self.spec_normals(),
    {
        &self.normals
    }

    /// The vertex indices, six for each quad.
    pub fn indices(&self) -> (r: &Vec<u32>)
        ensures
            r@ == self.spec_indices(),
    {
        &self.indices
    }
}

/// What the buffers of a well-formed mesh hold for its quad `i`: corner `j` of
/// the quad at position `4 * i + j`, the outward normal beside each corner, and
/// at `6 * i + j` the index of the corner that `triangle_corner(j)` names.
pub proof fn lemma_mesh_buffers(mesh: ChunkMeshData, i: int)
    requires
        mesh.wf(),
        0 <= i < mesh@.len(),
    ensures
        mesh@[i].dir.spec_is_face(),
        mesh.spec_positions().len() == 4 * mesh@.len(),
        mesh.spec_normals().len() == 4 * mesh@.len(),
        mesh.spec_indices().len() == 6 * mesh@.len(),
        forall|j: int|
            0 <= j < 4 ==> coords(#[trigger] mesh.spec_positions()[4 * i + j]) == quad_corner(
                coords(mesh@[i].cell),
                mesh@[i].dir,
                j,
            ),
        forall|j: int|
            0 <= j < 4 ==> coords(#[trigger] mesh.spec_normals()[4 * i + j])
                == mesh@[i].dir.offset(),
        forall|j: int|
            0 <= j < 6 ==> (#[trigger] mesh.spec_indices()[6 * i + j]) as int == 4 * i
                + triangle_corner(j),
{
}

/// The quad's corners go round counter-clockwise as seen from outside: the
/// cross product of the edge from corner 0 to corner 1 and the edge from corner
/// 0 to corner 3 is the outward normal.
pub proof fn lemma_quad_winding(cell: (int, int, int), dir: Directions)
    requires
        dir.spec_is_face(),
    ensures
        ({
            let c0 = quad_corner(cell, dir, 0);
            let c1 = quad_corner(cell, dir, 1);
            let c3 = quad_corner(cell, dir, 3);
            let e = (c1.0 - c0.0, c1.1 - c0.1, c1.2 - c0.2);
            let f = (c3.0 - c0.0, c3.1 - c0.1, c3.2 - c0.2);
            (e.1 * f.2 - e.2 * f.1, e.2 * f.0 - e.0 * f.2, e.0 * f.1 - e.1 * f.0) == dir.offset()
        }),
{
}

} // verus!
