//! A chunk: a cube of `N` x `N` x `N` voxels with a halo one cell thick on
//! every face, in which the touching layer of each neighbouring chunk is kept.
//!
//! Cells are addressed by interior coordinates: the interior runs from 0 to
//! `N - 1` along each axis, the halo lies at -1 and at `N`.

use vstd::prelude::*;
use crate::chunk_mesh::{ChunkMeshData, Quad};
use crate::directions::Directions;
use crate::grid::{
    cube_fits, grid_cells, grid_clone, grid_get, grid_new, grid_set, in_cube, VoxelGrid,
};
use crate::vec3::Vec3i;
use crate::voxel::Voxel;

verus! {

/// The edge length of the chunks of a world.
pub const CHSIZE: usize = 8;

/// The edge length of the chunks of a world, as a signed integer.
pub const CHSIZEI: i32 = 8;

/// The largest edge length a chunk can have. With it the array of a chunk can be
/// allocated on every target, and the vertex indices of its mesh fit in `u32`.
pub const MAX_EDGE: usize = 510;

/// A chunk of a world.
pub type SChunk = Chunk<CHSIZE>;

/// The coordinates of an index triple as mathematical integers.
pub open spec fn lift(p: (i32, i32, i32)) -> (int, int, int) {
    (p.0 as int, p.1 as int, p.2 as int)
}

proof fn lemma_cube_fits(side: int)
    requires
        0 <= side <= 512,
    ensures
        cube_fits(side),
{
    assert(side * side * side <= 512 * 512 * 512) by (nonlinear_arith)
        requires
            0 <= side <= 512,
    ;
}

proof fn lemma_contains_add<A>(a: Seq<A>, b: Seq<A>, q: A)
    ensures
        (a + b).contains(q) <==> a.contains(q) || b.contains(q),
{
    if a.contains(q) {
        let i = choose|i: int| 0 <= i < a.len() && a[i] == q;
        assert((a + b)[i] == q);
    }
    if b.contains(q) {
        let i = choose|i: int| 0 <= i < b.len() && b[i] == q;
        assert((a + b)[a.len() + i] == q);
    }
}

proof fn lemma_add_no_duplicates<A>(a: Seq<A>, b: Seq<A>)
    requires
        a.no_duplicates(),
        b.no_duplicates(),
        forall|q: A| !(#[trigger] a.contains(q) && b.contains(q)),
    ensures
        (a + b).no_duplicates(),
{
    let c = a + b;
    assert forall|i: int, j: int| 0 <= i < c.len() && 0 <= j < c.len() && i != j implies c[i]
        != c[j] by {
        if i < a.len() && j >= a.len() {
            assert(a.contains(a[i]));
        } else if j < a.len() && i >= a.len() {
            assert(a.contains(a[j]));
        }
    }
}

proof fn lemma_contains_push<A>(a: Seq<A>, x: A, q: A)
    ensures
        a.push(x).contains(q) <==> a.contains(q) || q == x,
{
    if a.contains(q) {
        let i = choose|i: int| 0 <= i < a.len() && a[i] == q;
        assert(a.push(x)[i] == q);
    }
    if q == x {
        assert(a.push(x)[a.len() as int] == q);
    }
}

/// The voxels of a chunk as its users see them: the interior alone, with the
/// shape `N` x `N` x `N`. The halo is stored along with it and is out of reach
/// from here.
#[derive(Debug)]
pub struct ChunkData<const N: usize> {
    grid: VoxelGrid,
}

impl<const N: usize> ChunkData<N> {
    #[verifier::type_invariant]
    spec fn inv(self) -> bool {
        &&& N <= MAX_EDGE
        &&& forall|i: int, j: int, k: int|
            grid_cells(self.grid).dom().contains((i, j, k)) <==> in_cube(N + 2, i, j, k)
    }

    /// The voxel at `(x, y, z)`, for coordinates from -1 to `N`.
    pub closed spec fn voxel(&self, x: int, y: int, z: int) -> Voxel {
        grid_cells(self.grid)[(x + 1, y + 1, z + 1)]
    }

    /// The shape of the interior.
    pub fn shape(&self) -> (r: [usize; 3])
        ensures
            r@ == seq![N, N, N],
    {
        let r = [N, N, N];
        r
    }

    /// The interior voxel at `index`.
    pub fn get(&self, index: [usize; 3]) -> (v: Voxel)
        requires
            index[0] < N && index[1] < N && index[2] < N,
        ensures
            v == self.voxel(index[0] as int, index[1] as int, index[2] as int),
    {
        proof {
            use_type_invariant(self);
        }
        grid_get(&self.grid, index[0] + 1, index[1] + 1, index[2] + 1)
    }

    /// Puts `v` at `index` in the interior. No other cell changes.
    pub fn set(&mut self, index: [usize; 3], v: Voxel)
        requires
            index[0] < N && index[1] < N && index[2] < N,
        ensures
            forall|x: int, y: int, z: int|
                #[trigger] final(self).voxel(x, y, z) == if x == index[0] && y == index[1] && z
                    == index[2] {
                    v
                } else {
                    old(self).voxel(x, y, z)
                },
    {
        proof {
            use_type_invariant(&*self);
        }
        grid_set(&mut self.grid, index[0] + 1, index[1] + 1, index[2] + 1, v);
    }

    fn at(&self, x: i32, y: i32, z: i32) -> (v: Voxel)
        requires
            -1 <= x <= N && -1 <= y <= N && -1 <= z <= N,
        ensures
            v == self.voxel(x as int, y as int, z as int),
    {
        proof {
            use_type_invariant(self);
        }
        grid_get(&self.grid, (x + 1) as usize, (y + 1) as usize, (z + 1) as usize)
    }

    fn put(&mut self, x: i32, y: i32, z: i32, v: Voxel)
        requires
            -1 <= x <= N && -1 <= y <= N && -1 <= z <= N,
        ensures
            forall|a: int, b: int, c: int|
                #[trigger] final(self).voxel(a, b, c) == if a == x && b == y && c == z {
                    v
                } else {
                    old(self).voxel(a, b, c)
                },
    {
        proof {
            use_type_invariant(&*self);
        }
        grid_set(&mut self.grid, (x + 1) as usize, (y + 1) as usize, (z + 1) as usize, v);
    }
}

impl<const N: usize> Clone for ChunkData<N> {
    fn clone(&self) -> (r: Self)
        ensures
            forall|x: int, y: int, z: int| #[trigger] r.voxel(x, y, z) == self.voxel(x, y, z),
    {
        proof {
            use_type_invariant(self);
        }
        ChunkData { grid: grid_clone(&self.grid) }
    }
}

/// A cube of `N` x `N` x `N` voxels and the halo around it.
#[derive(Debug)]
pub struct Chunk<const N: usize> {
    data: ChunkData<N>,
}

impl<const N: usize> Clone for Chunk<N> {
    /// A chunk of its own that holds the same voxels, halo included.
    fn clone(&self) -> (r: Self)
        ensures
            forall|x: int, y: int, z: int| #[trigger] r.voxel(x, y, z) == self.voxel(x, y, z),
    {
        Chunk { data: self.data.clone() }
    }
}

impl<const N: usize> Chunk<N> {
    /// The voxel at `(x, y, z)`: an interior cell for coordinates from 0 to
    /// `N - 1`, a halo cell where a coordinate is -1 or `N`.
    pub closed spec fn voxel(&self, x: int, y: int, z: int) -> Voxel {
        self.data.voxel(x, y, z)
    }

    /// Whether `(x, y, z)` is a cell of a chunk, interior or halo.
    pub open spec fn in_range(x: int, y: int, z: int) -> bool {
        -1 <= x <= N && -1 <= y <= N && -1 <= z <= N
    }

    /// Whether `(x, y, z)` is an interior cell.
    pub open spec fn is_interior(x: int, y: int, z: int) -> bool {
        0 <= x < N && 0 <= y < N && 0 <= z < N
    }

    /// A chunk in which every cell, interior and halo, is empty.
    pub fn new() -> (r: Self)
        requires
            N <= MAX_EDGE,
        ensures
            forall|x: int, y: int, z: int|
                Self::in_range(x, y, z) ==> #[trigger] r.voxel(x, y, z) == Voxel::empty(),
    {
        proof {
            lemma_cube_fits(N + 2);
        }
        Chunk { data: ChunkData { grid: grid_new(N + 2) } }
    }

    /// The interior, to read.
    pub fn data(&self) -> (r: &ChunkData<N>)
        ensures
            forall|x: int, y: int, z: int| #[trigger] r.voxel(x, y, z) == self.voxel(x, y, z),
    {
        &self.data
    }

    /// The interior, to read and to write. The chunk is afterwards what the
    /// returned value holds when the borrow ends; its methods write interior
    /// cells and no others.
    pub fn data_mut(&mut self) -> (r: &mut ChunkData<N>)
        ensures
            forall|x: int, y: int, z: int| #[trigger] r.voxel(x, y, z) == old(self).voxel(x, y, z),
            forall|x: int, y: int, z: int|
                #[trigger] final(self).voxel(x, y, z) == final(r).voxel(x, y, z),
    {
        &mut self.data
    }

    /// The voxel at `(x, y, z)`, interior or halo.
    pub fn voxel_at(&self, x: i32, y: i32, z: i32) -> (v: Voxel)
        requires
            Self::in_range(x as int, y as int, z as int),
        ensures
            v == self.voxel(x as int, y as int, z as int),
    {
        self.data.at(x, y, z)
    }

    /// The edge length as a signed integer.
    fn edge() -> (n: i32)
        requires
            N <= i32::MAX,
        ensures
            n == N,
    {
        N as i32
    }

    /// `p` with x and y exchanged.
    pub open spec fn spec_transpose_xy(p: (int, int, int)) -> (int, int, int) {
        (p.1, p.0, p.2)
    }

    /// `p` with x and z exchanged.
    pub open spec fn spec_transpose_xz(p: (int, int, int)) -> (int, int, int) {
        (p.2, p.1, p.0)
    }

    /// `p` with y and z exchanged.
    pub open spec fn spec_transpose_yz(p: (int, int, int)) -> (int, int, int) {
        (p.0, p.2, p.1)
    }

    /// `p` mirrored along x within the interior.
    pub open spec fn spec_reverse_x(p: (int, int, int)) -> (int, int, int) {
        (N - p.0 - 1, p.1, p.2)
    }

    /// `p` mirrored along y within the interior.
    pub open spec fn spec_reverse_y(p: (int, int, int)) -> (int, int, int) {
        (p.0, N - p.1 - 1, p.2)
    }

    /// The index to which a quarter turn in the xy plane takes `p`: the
    /// transposition of x and y, then the reversal of x.
    pub open spec fn spec_rotate90_xy(p: (int, int, int)) -> (int, int, int) {
        Self::spec_reverse_x(Self::spec_transpose_xy(p))
    }

    /// The index to which a quarter turn in the xz plane takes `p`: the
    /// transposition of x and z, then the reversal of x.
    pub open spec fn spec_rotate90_xz(p: (int, int, int)) -> (int, int, int) {
        Self::spec_reverse_x(Self::spec_transpose_xz(p))
    }

    /// The index to which a quarter turn in the yz plane takes `p`: the
    /// transposition of y and z, then the reversal of y.
    pub open spec fn spec_rotate90_yz(p: (int, int, int)) -> (int, int, int) {
        Self::spec_reverse_y(Self::spec_transpose_yz(p))
    }

    fn transpose_xy(p: (i32, i32, i32)) -> (r: (i32, i32, i32))
        ensures
            lift(r) == Self::spec_transpose_xy(lift(p)),
    {
        (p.1, p.0, p.2)
    }

    fn transpose_xz(p: (i32, i32, i32)) -> (r: (i32, i32, i32))
        ensures
            lift(r) == Self::spec_transpose_xz(lift(p)),
    {
        (p.2, p.1, p.0)
    }

    fn transpose_yz(p: (i32, i32, i32)) -> (r: (i32, i32, i32))
        ensures
            lift(r) == Self::spec_transpose_yz(lift(p)),
    {
        (p.0, p.2, p.1)
    }

    fn reverse_x(p: (i32, i32, i32)) -> (r: (i32, i32, i32))
        requires
            N <= i32::MAX,
            i32::MIN <= N - p.0 - 1 <= i32::MAX,
        ensures
            lift(r) == Self::spec_reverse_x(lift(p)),
    {
        (Self::edge() - 1 - p.0, p.1, p.2)
    }

    fn reverse_y(p: (i32, i32, i32)) -> (r: (i32, i32, i32))
        requires
            N <= i32::MAX,
            i32::MIN <= N - p.1 - 1 <= i32::MAX,
        ensures
            lift(r) == Self::spec_reverse_y(lift(p)),
    {
        (p.0, Self::edge() - 1 - p.1, p.2)
    }

    /// Turns the index `p` by a quarter turn in the xy plane.
    pub fn rotate90_xy(p: (i32, i32, i32)) -> (r: (i32, i32, i32))
        requires
            N <= i32::MAX,
            i32::MIN <= N - p.1 - 1 <= i32::MAX,
        ensures
            lift(r) == Self::spec_rotate90_xy(lift(p)),
    {
        Self::reverse_x(Self::transpose_xy(p))
    }

    /// Turns the index `p` by a quarter turn in the xz plane.
    pub fn rotate90_xz(p: (i32, i32, i32)) -> (r: (i32, i32, i32))
        requires
            N <= i32::MAX,
            i32::MIN <= N - p.2 - 1 <= i32::MAX,
        ensures
            lift(r) == Self::spec_rotate90_xz(lift(p)),
    {
        Self::reverse_x(Self::transpose_xz(p))
    }

    /// Turns the index `p` by a quarter turn in the yz plane.
    pub fn rotate90_yz(p: (i32, i32, i32)) -> (r: (i32, i32, i32))
        requires
            N <= i32::MAX,
            i32::MIN <= N - p.2 - 1 <= i32::MAX,
        ensures
            lift(r) == Self::spec_rotate90_yz(lift(p)),
    {
        Self::reverse_y(Self::transpose_yz(p))
    }

    /// The point of the face looking in `dir` to which the turns that carry the
    /// upper face onto that face take the point `p` of the upper face. The
    /// upper face stays in place; one, two and three quarter turns in the xy
    /// plane carry it onto the western, the lower and the eastern face; one and
    /// three quarter turns in the yz plane onto the southern and the northern.
    pub open spec fn spec_face_index(dir: Directions, p: (int, int, int)) -> (int, int, int) {
        if dir.up {
            p
        } else if dir.down {
            Self::spec_rotate90_xy(Self::spec_rotate90_xy(p))
        } else if dir.west {
            Self::spec_rotate90_xy(p)
        } else if dir.east {
            Self::spec_rotate90_xy(Self::spec_rotate90_xy(Self::spec_rotate90_xy(p)))
        } else if dir.north {
            Self::spec_rotate90_yz(Self::spec_rotate90_yz(Self::spec_rotate90_yz(p)))
        } else {
            Self::spec_rotate90_yz(p)
        }
    }

    fn face_index(dir: Directions, p: (i32, i32, i32)) -> (r: (i32, i32, i32))
        requires
            N <= MAX_EDGE,
            dir.spec_is_face(),
            Self::is_interior(p.0 as int, p.1 as int, p.2 as int),
        ensures
            lift(r) == Self::spec_face_index(dir, lift(p)),
    {
        if dir.up {
            p
        } else if dir.down {
            Self::rotate90_xy(Self::rotate90_xy(p))
        } else if dir.west {
            Self::rotate90_xy(p)
        } else if dir.east {
            Self::rotate90_xy(Self::rotate90_xy(Self::rotate90_xy(p)))
        } else if dir.north {
            Self::rotate90_yz(Self::rotate90_yz(Self::rotate90_yz(p)))
        } else {
            Self::rotate90_yz(p)
        }
    }

    /// Whether the coordinate `c` lies where the halo face demands it along an
    /// axis on which the face's direction has the component `o`: at `N` or at
    /// -1 along the direction's own axis, within the interior along the others.
    pub open spec fn on_side(o: int, c: int) -> bool {
        if o > 0 {
            c == N
        } else if o < 0 {
            c == -1
        } else {
            0 <= c < N
        }
    }

    /// The coordinate, in the neighbouring chunk on the side `o`, of the cell
    /// whose coordinate in this chunk is `c`.
    pub open spec fn across(o: int, c: int) -> int {
        if o > 0 {
            c - N
        } else if o < 0 {
            c + N
        } else {
            c
        }
    }

    /// Whether `(x, y, z)` is a cell of the halo face that looks in `dir`: the
    /// `N` x `N` cells that lie one step in `dir` beyond the interior.
    pub open spec fn on_halo_face(dir: Directions, x: int, y: int, z: int) -> bool {
        let o = dir.offset();
        dir.spec_is_face() && Self::on_side(o.0, x) && Self::on_side(o.1, y) && Self::on_side(
            o.2,
            z,
        )
    }

    /// What `copy_borders` does to a chunk: `post` is `pre` but for the halo face
    /// that looks in `dir`. Each cell of that face holds the voxel of the cell of
    /// `other` that lies in the same place when `other` is the neighbouring
    /// chunk in the direction `dir`: a cell of the interior layer of `other` that
    /// touches the face.
    pub open spec fn borders_copied(pre: Self, post: Self, other: Self, dir: Directions) -> bool {
        let o = dir.offset();
        forall|x: int, y: int, z: int|
            Self::in_range(x, y, z) ==> #[trigger] post.voxel(x, y, z) == if Self::on_halo_face(
                dir,
                x,
                y,
                z,
            ) {
                other.voxel(Self::across(o.0, x), Self::across(o.1, y), Self::across(o.2, z))
            } else {
                pre.voxel(x, y, z)
            }
    }

    /// The two numbers that say where on the halo face looking in `dir` the
    /// cell `(x, y, z)` lies: the coordinates of the point of the upper face
    /// that `spec_face_index` takes to the interior cell below it.
    spec fn face_param(dir: Directions, x: int, y: int, z: int) -> (int, int) {
        if dir.up {
            (x, z)
        } else if dir.down {
            (N - 1 - x, z)
        } else if dir.west {
            (y, z)
        } else if dir.east {
            (N - 1 - y, z)
        } else if dir.north {
            (x, y)
        } else {
            (x, N - 1 - y)
        }
    }

    fn step_across(o: i32, c: i32) -> (r: i32)
        requires
            N <= MAX_EDGE,
            -1 <= c <= N,
        ensures
            r == Self::across(o as int, c as int),
    {
        if o > 0 {
            c - Self::edge()
        } else if o < 0 {
            c + Self::edge()
        } else {
            c
        }
    }

    /// Fills the halo face that looks in `dir` from `other`. The cells of the
    /// face are reached from the points of the upper face by `face_index`.
    fn copy_face_up(&mut self, other: &Self, dir: Directions)
        requires
            N <= MAX_EDGE,
            dir.spec_is_face(),
        ensures
            Self::borders_copied(*old(self), *final(self), *other, dir),
    {
        let n = Self::edge();
        let step = dir.to_vec();
        let ghost o = dir.offset();
        let mut x: i32 = 0;
        while x < n
            invariant
                N <= MAX_EDGE,
                n == N,
                dir.spec_is_face(),
                o == dir.offset(),
                lift((step.x, step.y, step.z)) == o,
                0 <= x <= n,
                forall|a: int, b: int, c: int|
                    Self::in_range(a, b, c) ==> #[trigger] self.voxel(a, b, c) == if
                        Self::on_halo_face(dir, a, b, c) && Self::face_param(dir, a, b, c).0 < x {
                        other.voxel(Self::across(o.0, a), Self::across(o.1, b), Self::across(o.2, c))
                    } else {
                        old(self).voxel(a, b, c)
                    },
            decreases n - x,
        {
            let mut z: i32 = 0;
            while z < n
                invariant
                    N <= MAX_EDGE,
                    n == N,
                    dir.spec_is_face(),
                    o == dir.offset(),
                    lift((step.x, step.y, step.z)) == o,
                    0 <= x < n,
                    0 <= z <= n,
                    forall|a: int, b: int, c: int|
                        Self::in_range(a, b, c) ==> #[trigger] self.voxel(a, b, c) == if
                            Self::on_halo_face(dir, a, b, c) && (Self::face_param(dir, a, b, c).0
                            < x || (Self::face_param(dir, a, b, c).0 == x && Self::face_param(
                            dir,
                            a,
                            b,
                            c,
                        ).1 < z)) {
                            other.voxel(
                                Self::across(o.0, a),
                                Self::across(o.1, b),
                                Self::across(o.2, c),
                            )
                        } else {
                            old(self).voxel(a, b, c)
                        },
                decreases n - z,
            {
                let p = Self::face_index(dir, (x, n - 1, z));
                let hx = p.0 + step.x;
                let hy = p.1 + step.y;
                let hz = p.2 + step.z;
                let v = other.voxel_at(
                    Self::step_across(step.x, hx),
                    Self::step_across(step.y, hy),
                    Self::step_across(step.z, hz),
                );
                let ghost prev = *self;
                self.data.put(hx, hy, hz, v);
                proof {
                    assert forall|a: int, b: int, c: int|
                        Self::in_range(a, b, c) implies #[trigger] self.voxel(a, b, c) == if
                        Self::on_halo_face(dir, a, b, c) && (Self::face_param(dir, a, b, c).0 < x
                            || (Self::face_param(dir, a, b, c).0 == x && Self::face_param(
                            dir,
                            a,
                            b,
                            c,
                        ).1 < z + 1)) {
                        other.voxel(
                            Self::across(o.0, a),
                            Self::across(o.1, b),
                            Self::across(o.2, c),
                        )
                    } else {
                        old(self).voxel(a, b, c)
                    } by {
                        if !(a == hx && b == hy && c == hz) {
                            assert(self.voxel(a, b, c) == prev.voxel(a, b, c));
                        }
                    }
                }
                z = z + 1;
            }
            x = x + 1;
        }
    }

    /// The set that `dir` comes to when opposite directions cancel.
    pub open spec fn effective(dir: Directions) -> Directions {
        Directions {
            up: dir.up && !dir.down,
            down: dir.down && !dir.up,
            north: dir.north && !dir.south,
            south: dir.south && !dir.north,
            east: dir.east && !dir.west,
            west: dir.west && !dir.east,
        }
    }

    /// Takes over the border of the neighbouring chunk `other` that lies in the
    /// direction `dir`: the halo face of `self` that looks in `dir` becomes a copy
    /// of the interior layer of `other` that touches it. Nothing else changes.
    ///
    /// `dir` has to come to one of the six faces once opposite directions have
    /// cancelled; edges and corners are not covered.
    pub fn copy_borders(&mut self, other: &Self, dir: Directions)
        requires
            Self::effective(dir).spec_is_face(),
        ensures
            Self::borders_copied(*old(self), *final(self), *other, Self::effective(dir)),
    {
        proof {
            use_type_invariant(&self.data);
        }
        let dir: Directions = Directions::from(dir.to_vec());
        self.copy_face_up(other, dir);
    }

    /// The faces of the chunk on which the interior cell `index` lies: for each
    /// axis the face on the low side if the coordinate is 0, the face on the high
    /// side if it is `N - 1`.
    pub open spec fn border_of(index: [usize; 3]) -> Directions {
        Directions {
            up: index[1] + 1 == N,
            down: index[1] == 0,
            north: index[2] == 0,
            south: index[2] + 1 == N,
            east: index[0] + 1 == N,
            west: index[0] == 0,
        }
    }

    /// The faces of the chunk on which the interior cell `index` lies, if it
    /// lies on any: one for a cell within a face, two on an edge, three in a
    /// corner, and opposite ones too where the chunk is one cell thick.
    pub fn is_on_border(index: &[usize; 3]) -> (r: Option<Directions>)
        ensures
            r == if Self::border_of(*index).spec_is_empty() {
                None
            } else {
                Some(Self::border_of(*index))
            },
    {
        let border = Directions {
            up: N > 0 && index[1] == N - 1,
            down: index[1] == 0,
            north: index[2] == 0,
            south: N > 0 && index[2] == N - 1,
            east: N > 0 && index[0] == N - 1,
            west: index[0] == 0,
        };
        if border.is_empty() {
            None
        } else {
            Some(border)
        }
    }

    /// Whether the face of the interior cell `(x, y, z)` that looks in `dir`
    /// can be seen: the cell is solid and the cell next to it in that direction,
    /// interior or halo, is transparent.
    pub open spec fn face_visible(&self, x: int, y: int, z: int, dir: Directions) -> bool {
        let o = dir.offset();
        !self.voxel(x, y, z).spec_is_transparent() && self.voxel(
            x + o.0,
            y + o.1,
            z + o.2,
        ).spec_is_transparent()
    }

    /// The visible ones among the first `k` faces of the cell `(x, y, z)`, in
    /// the order of `Directions::face_seq`.
    pub open spec fn cell_quads(&self, x: int, y: int, z: int, k: int) -> Seq<Quad>
        decreases k,
    {
        if k <= 0 {
            Seq::empty()
        } else {
            let rest = self.cell_quads(x, y, z, k - 1);
            let dir = Directions::face_seq()[k - 1];
            if self.face_visible(x, y, z, dir) {
                rest.push(
                    Quad { cell: Vec3i { x: x as i32, y: y as i32, z: z as i32 }, dir },
                )
            } else {
                rest
            }
        }
    }

    /// The visible faces of the cells `(x, y, 0)` to `(x, y, zn - 1)`.
    pub open spec fn row_quads(&self, x: int, y: int, zn: int) -> Seq<Quad>
        decreases zn,
    {
        if zn <= 0 {
            Seq::empty()
        } else {
            self.row_quads(x, y, zn - 1) + self.cell_quads(x, y, zn - 1, 6)
        }
    }

    /// The visible faces of the rows `(x, 0)` to `(x, yn - 1)`.
    pub open spec fn slab_quads(&self, x: int, yn: int) -> Seq<Quad>
        decreases yn,
    {
        if yn <= 0 {
            Seq::empty()
        } else {
            self.slab_quads(x, yn - 1) + self.row_quads(x, yn - 1, N as int)
        }
    }

    /// The visible faces of the slabs 0 to `xn - 1`.
    pub open spec fn chunk_quads(&self, xn: int) -> Seq<Quad>
        decreases xn,
    {
        if xn <= 0 {
            Seq::empty()
        } else {
            self.chunk_quads(xn - 1) + self.slab_quads(xn - 1, N as int)
        }
    }

    /// The surface of the chunk: every visible face of every interior cell, the
    /// cells in the order of their indices with x counting slowest and z fastest,
    /// the faces of a cell in the order of `Directions::face_seq`.
    pub open spec fn mesh_quads(&self) -> Seq<Quad> {
        self.chunk_quads(N as int)
    }

    proof fn lemma_quads_len(&self, x: int, y: int, z: int, k: int)
        requires
            0 <= x && 0 <= y && 0 <= z && 0 <= k,
        ensures
            self.cell_quads(x, y, z, k).len() <= k,
            self.row_quads(x, y, z).len() <= 6 * z,
            self.slab_quads(x, y).len() <= 6 * N * y,
            self.chunk_quads(x).len() <= 6 * N * N * x,
        decreases x, y, z, k,
    {
        if k > 0 {
            self.lemma_quads_len(x, y, z, k - 1);
        }
        if z > 0 {
            self.lemma_quads_len(x, y, z - 1, 6);
        }
        if y > 0 {
            self.lemma_quads_len(x, y - 1, N as int, k);
            assert(6 * N * (y - 1) + 6 * N == 6 * N * y) by (nonlinear_arith);
        }
        if x > 0 {
            self.lemma_quads_len(x - 1, N as int, z, k);
            assert(6 * N * N * (x - 1) + 6 * N * N == 6 * N * N * x) by (nonlinear_arith);
        }
    }

    proof fn lemma_quads_fit(&self, x: int, y: int, z: int, k: int)
        requires
            N <= MAX_EDGE,
            0 <= x < N && 0 <= y < N && 0 <= z < N && 0 <= k < 6,
        ensures
            self.chunk_quads(x).len() + self.slab_quads(x, y).len() + self.row_quads(x, y, z).len()
                + self.cell_quads(x, y, z, k).len() < ChunkMeshData::capacity(),
    {
        self.lemma_quads_len(x, y, z, k);
        let n = N as int;
        assert(6 * n * n * x + 6 * n * y + 6 * z + k < 6 * 510 * 510 * 510) by (nonlinear_arith)
            requires
                0 <= n <= 510,
                0 <= x < n && 0 <= y < n && 0 <= z < n && 0 <= k < 6,
        ;
    }

    proof fn lemma_transparent_cell(&self, x: int, y: int, z: int, k: int)
        requires
            self.voxel(x, y, z).spec_is_transparent(),
            0 <= k,
        ensures
            self.cell_quads(x, y, z, k) == Seq::<Quad>::empty(),
        decreases k,
    {
        if k > 0 {
            self.lemma_transparent_cell(x, y, z, k - 1);
        }
    }

    /// Extracts the surface: one quad for each face of a solid interior cell
    /// that borders on a transparent cell, interior or halo. Coplanar quads are
    /// not merged.
    pub fn mesh(&self) -> (r: ChunkMeshData)
        ensures
            r.wf(),
            r@ == self.mesh_quads(),
    {
        proof {
            use_type_invariant(&self.data);
        }
        let n = Self::edge();
        let faces = Directions::faces();
        let mut chunk_mesh = ChunkMeshData::new();
        let mut x: i32 = 0;
        while x < n
            invariant
                N <= MAX_EDGE,
                n == N,
                faces@ == Directions::face_seq(),
                0 <= x <= n,
                chunk_mesh.wf(),
                chunk_mesh@ == self.chunk_quads(x as int),
            decreases n - x,
        {
            let mut y: i32 = 0;
            while y < n
                invariant
                    N <= MAX_EDGE,
                    n == N,
                    faces@ == Directions::face_seq(),
                    0 <= x < n,
                    0 <= y <= n,
                    chunk_mesh.wf(),
                    chunk_mesh@ == self.chunk_quads(x as int) + self.slab_quads(x as int, y as int),
                decreases n - y,
            {
                let mut z: i32 = 0;
                while z < n
                    invariant
                        N <= MAX_EDGE,
                        n == N,
                        faces@ == Directions::face_seq(),
                        0 <= x < n,
                        0 <= y < n,
                        0 <= z <= n,
                        chunk_mesh.wf(),
                        chunk_mesh@ == self.chunk_quads(x as int) + self.slab_quads(
                            x as int,
                            y as int,
                        ) + self.row_quads(x as int, y as int, z as int),
                    decreases n - z,
                {
                    let ghost done = chunk_mesh@;
                    if self.voxel_at(x, y, z).is_transparent() {
                        proof {
                            self.lemma_transparent_cell(x as int, y as int, z as int, 6);
                        }
                    } else {
                        let mut k: usize = 0;
                        while k < 6
                            invariant
                                N <= MAX_EDGE,
                                n == N,
                                faces@ == Directions::face_seq(),
                                0 <= x < n,
                                0 <= y < n,
                                0 <= z < n,
                                0 <= k <= 6,
                                !self.voxel(x as int, y as int, z as int).spec_is_transparent(),
                                chunk_mesh.wf(),
                                done == self.chunk_quads(x as int) + self.slab_quads(
                                    x as int,
                                    y as int,
                                ) + self.row_quads(x as int, y as int, z as int),
                                chunk_mesh@ == done + self.cell_quads(
                                    x as int,
                                    y as int,
                                    z as int,
                                    k as int,
                                ),
                            decreases 6 - k,
                        {
                            let dir = faces[k];
                            let step = dir.to_vec();
                            proof {
                                self.lemma_quads_fit(x as int, y as int, z as int, k as int);
                            }
                            if self.voxel_at(x + step.x, y + step.y, z + step.z).is_transparent() {
                                chunk_mesh.insert_quad(Vec3i::new(x, y, z), dir);
                            }
                            k = k + 1;
                        }
                    }
                    z = z + 1;
                }
                y = y + 1;
            }
            x = x + 1;
        }
        chunk_mesh
    }

    /// Four quarter turns in one plane bring every index back to where it was.
    pub proof fn lemma_rotate90_order_four(p: (int, int, int))
        ensures
            Self::spec_rotate90_xy(
                Self::spec_rotate90_xy(Self::spec_rotate90_xy(Self::spec_rotate90_xy(p))),
            ) == p,
            Self::spec_rotate90_xz(
                Self::spec_rotate90_xz(Self::spec_rotate90_xz(Self::spec_rotate90_xz(p))),
            ) == p,
            Self::spec_rotate90_yz(
                Self::spec_rotate90_yz(Self::spec_rotate90_yz(Self::spec_rotate90_yz(p))),
            ) == p,
    {
    }

    /// A quarter turn takes interior cells to interior cells.
    pub proof fn lemma_rotate90_keeps_interior(p: (int, int, int))
        requires
            Self::is_interior(p.0, p.1, p.2),
        ensures
            ({
                let q = Self::spec_rotate90_xy(p);
                Self::is_interior(q.0, q.1, q.2)
            }),
            ({
                let q = Self::spec_rotate90_xz(p);
                Self::is_interior(q.0, q.1, q.2)
            }),
            ({
                let q = Self::spec_rotate90_yz(p);
                Self::is_interior(q.0, q.1, q.2)
            }),
    {
    }

    /// The three quarter turns fit together: a turn in one plane, carried along
    /// by a turn in a second plane, is the turn in the third plane the other way
    /// round, that is three times over.
    pub proof fn lemma_rotate90_consistent(p: (int, int, int))
        ensures
            Self::spec_rotate90_xy(Self::spec_rotate90_yz(p)) == Self::spec_rotate90_xz(
                Self::spec_rotate90_xz(Self::spec_rotate90_xz(Self::spec_rotate90_xy(p))),
            ),
            Self::spec_rotate90_yz(Self::spec_rotate90_xz(p)) == Self::spec_rotate90_xy(
                Self::spec_rotate90_xy(Self::spec_rotate90_xy(Self::spec_rotate90_yz(p))),
            ),
            Self::spec_rotate90_xz(Self::spec_rotate90_xy(p)) == Self::spec_rotate90_yz(
                Self::spec_rotate90_yz(Self::spec_rotate90_yz(Self::spec_rotate90_xz(p))),
            ),
    {
    }

    /// After `copy_borders` with the direction up, the halo face above the
    /// interior holds the lowest interior layer of `other`, cell for cell with
    /// the same x and z, and every other cell is as it was.
    pub proof fn lemma_copy_up(pre: Self, post: Self, other: Self)
        requires
            Self::borders_copied(pre, post, other, Directions::spec_up()),
        ensures
            forall|x: int, z: int|
                0 <= x < N && 0 <= z < N ==> #[trigger] post.voxel(x, N as int, z) == other.voxel(
                    x,
                    0,
                    z,
                ),
            forall|x: int, y: int, z: int|
                Self::in_range(x, y, z) && !(y == N && 0 <= x < N && 0 <= z < N)
                    ==> #[trigger] post.voxel(x, y, z) == pre.voxel(x, y, z),
    {
    }

    /// Where the highest interior layer of `other` holds what its lowest holds,
    /// the halo face above the interior equals that highest layer too after
    /// `copy_borders` with the direction up.
    pub proof fn lemma_copy_up_far_layer(pre: Self, post: Self, other: Self)
        requires
            Self::borders_copied(pre, post, other, Directions::spec_up()),
            forall|x: int, z: int|
                0 <= x < N && 0 <= z < N ==> #[trigger] other.voxel(x, N - 1, z) == other.voxel(
                    x,
                    0,
                    z,
                ),
        ensures
            forall|x: int, z: int|
                0 <= x < N && 0 <= z < N ==> #[trigger] post.voxel(x, N as int, z) == other.voxel(
                    x,
                    N - 1,
                    z,
                ),
    {
    }

    /// Whether every interior cell is transparent.
    pub open spec fn all_transparent(&self) -> bool {
        forall|x: int, y: int, z: int|
            Self::is_interior(x, y, z) ==> (#[trigger] self.voxel(x, y, z)).spec_is_transparent()
    }

    /// Whether every interior cell is solid and every halo cell transparent.
    pub open spec fn solid_in_empty_halo(&self) -> bool {
        forall|x: int, y: int, z: int|
            Self::in_range(x, y, z) ==> (#[trigger] self.voxel(x, y, z)).spec_is_transparent()
                == !Self::is_interior(x, y, z)
    }

    proof fn lemma_row_of_empty(&self, x: int, y: int, zn: int)
        requires
            self.all_transparent(),
            0 <= x < N && 0 <= y < N && 0 <= zn <= N,
        ensures
            self.row_quads(x, y, zn) == Seq::<Quad>::empty(),
        decreases zn,
    {
        if zn > 0 {
            self.lemma_row_of_empty(x, y, zn - 1);
            self.lemma_transparent_cell(x, y, zn - 1, 6);
        }
    }

    proof fn lemma_slab_of_empty(&self, x: int, yn: int)
        requires
            self.all_transparent(),
            0 <= x < N && 0 <= yn <= N,
        ensures
            self.slab_quads(x, yn) == Seq::<Quad>::empty(),
        decreases yn,
    {
        if yn > 0 {
            self.lemma_slab_of_empty(x, yn - 1);
            self.lemma_row_of_empty(x, yn - 1, N as int);
        }
    }

    proof fn lemma_chunk_of_empty(&self, xn: int)
        requires
            self.all_transparent(),
            0 <= xn <= N,
        ensures
            self.chunk_quads(xn) == Seq::<Quad>::empty(),
        decreases xn,
    {
        if xn > 0 {
            self.lemma_chunk_of_empty(xn - 1);
            self.lemma_slab_of_empty(xn - 1, N as int);
        }
    }

    /// A chunk whose interior is all transparent has no surface.
    pub proof fn lemma_mesh_of_empty(&self)
        requires
            self.all_transparent(),
        ensures
            self.mesh_quads() == Seq::<Quad>::empty(),
    {
        self.lemma_chunk_of_empty(N as int);
    }

    /// How many of the two ends of an axis the coordinate `c` lies at.
    spec fn ends(c: int) -> int {
        (if c == 0 { 1int } else { 0 }) + (if c == N - 1 { 1int } else { 0 })
    }

    /// How many of the two ends of an axis lie among the coordinates below `cn`.
    spec fn ends_below(cn: int) -> int {
        (if cn > 0 { 1int } else { 0 }) + (if cn == N { 1int } else { 0 })
    }

    proof fn lemma_cell_of_solid(&self, x: int, y: int, z: int)
        requires
            self.solid_in_empty_halo(),
            Self::is_interior(x, y, z),
        ensures
            self.cell_quads(x, y, z, 6).len() == Self::ends(x) + Self::ends(y) + Self::ends(z),
    {
        reveal_with_fuel(Chunk::cell_quads, 7);
        assert(self.voxel(x, y, z).spec_is_transparent() == false);
        assert(self.voxel(x, y + 1, z).spec_is_transparent() == (y == N - 1));
        assert(self.voxel(x, y - 1, z).spec_is_transparent() == (y == 0));
        assert(self.voxel(x, y, z - 1).spec_is_transparent() == (z == 0));
        assert(self.voxel(x, y, z + 1).spec_is_transparent() == (z == N - 1));
        assert(self.voxel(x + 1, y, z).spec_is_transparent() == (x == N - 1));
        assert(self.voxel(x - 1, y, z).spec_is_transparent() == (x == 0));
    }

    proof fn lemma_row_of_solid(&self, x: int, y: int, zn: int)
        requires
            self.solid_in_empty_halo(),
            0 <= x < N && 0 <= y < N && 0 <= zn <= N,
        ensures
            self.row_quads(x, y, zn).len() == zn * (Self::ends(x) + Self::ends(y))
                + Self::ends_below(zn),
        decreases zn,
    {
        let e = Self::ends(x) + Self::ends(y);
        if zn > 0 {
            self.lemma_row_of_solid(x, y, zn - 1);
            self.lemma_cell_of_solid(x, y, zn - 1);
            assert(zn * e == (zn - 1) * e + e) by (nonlinear_arith);
        } else {
            assert(zn * e == 0) by (nonlinear_arith)
                requires
                    zn == 0,
            ;
        }
    }

    proof fn lemma_slab_of_solid(&self, x: int, yn: int)
        requires
            self.solid_in_empty_halo(),
            0 <= x < N && 0 <= yn <= N,
        ensures
            self.slab_quads(x, yn).len() == yn * (N * Self::ends(x) + 2) + N * Self::ends_below(yn),
        decreases yn,
    {
        if yn > 0 {
            self.lemma_slab_of_solid(x, yn - 1);
            self.lemma_row_of_solid(x, yn - 1, N as int);
            let n = N as int;
            let ex = Self::ends(x);
            let ey = Self::ends(yn - 1);
            let b0 = Self::ends_below(yn - 1);
            let b1 = Self::ends_below(yn);
            assert(yn * (n * ex + 2) + n * b1 == (yn - 1) * (n * ex + 2) + n * b0 + (n * (ex + ey)
                + 2)) by (nonlinear_arith)
                requires
                    b1 == b0 + ey,
            ;
        } else {
            assert(yn * (N * Self::ends(x) + 2) == 0) by (nonlinear_arith)
                requires
                    yn == 0,
            ;
            assert(N * Self::ends_below(yn) == 0) by (nonlinear_arith)
                requires
                    Self::ends_below(yn) == 0,
            ;
        }
    }

    proof fn lemma_chunk_of_solid(&self, xn: int)
        requires
            self.solid_in_empty_halo(),
            0 <= xn <= N,
        ensures
            self.chunk_quads(xn).len() == xn * (4 * N) + N * N * Self::ends_below(xn),
        decreases xn,
    {
        if xn > 0 {
            self.lemma_chunk_of_solid(xn - 1);
            self.lemma_slab_of_solid(xn - 1, N as int);
            let n = N as int;
            let ex = Self::ends(xn - 1);
            let b0 = Self::ends_below(xn - 1);
            let b1 = Self::ends_below(xn);
            assert(xn * (4 * n) + n * n * b1 == (xn - 1) * (4 * n) + n * n * b0 + (n * (n * ex + 2)
                + n * 2)) by (nonlinear_arith)
                requires
                    b1 == b0 + ex,
            ;
        } else {
            assert(xn * (4 * N) == 0) by (nonlinear_arith)
                requires
                    xn == 0,
            ;
            assert(N * N * Self::ends_below(xn) == 0) by (nonlinear_arith)
                requires
                    Self::ends_below(xn) == 0 || N == 0,
            ;
        }
    }

    /// A chunk whose interior is all solid and whose halo is all transparent
    /// shows its six outer sides and nothing else: 6 * N * N quads.
    pub proof fn lemma_mesh_of_solid(&self)
        requires
            self.solid_in_empty_halo(),
        ensures
            self.mesh_quads().len() == 6 * N * N,
    {
        self.lemma_chunk_of_solid(N as int);
        let n = N as int;
        if n > 0 {
            assert(n * (4 * n) + n * n * 2 == 6 * n * n) by (nonlinear_arith);
        } else {
            assert(6 * n * n == 0) by (nonlinear_arith)
                requires
                    n == 0,
            ;
        }
    }

    /// Whether `q` is a visible face of the interior cell `(x, y, z)`.
    pub open spec fn shows(&self, q: Quad, x: int, y: int, z: int) -> bool {
        &&& q.cell.x == x && q.cell.y == y && q.cell.z == z
        &&& q.dir.spec_is_face()
        &&& self.face_visible(x, y, z, q.dir)
    }

    proof fn lemma_cell_quads_hold(&self, q: Quad, x: int, y: int, z: int, k: int)
        requires
            N <= MAX_EDGE,
            Self::is_interior(x, y, z),
            0 <= k <= 6,
        ensures
            self.cell_quads(x, y, z, k).contains(q) <==> (self.shows(q, x, y, z) && exists|i: int|
                0 <= i < k && #[trigger] Directions::face_seq()[i] == q.dir),
        decreases k,
    {
        if k > 0 {
            self.lemma_cell_quads_hold(q, x, y, z, k - 1);
            let rest = self.cell_quads(x, y, z, k - 1);
            let dir = Directions::face_seq()[k - 1];
            let new = Quad { cell: Vec3i { x: x as i32, y: y as i32, z: z as i32 }, dir };
            lemma_contains_push(rest, new, q);
        }
    }

    proof fn lemma_row_quads_hold(&self, q: Quad, x: int, y: int, zn: int)
        requires
            N <= MAX_EDGE,
            0 <= x < N && 0 <= y < N && 0 <= zn <= N,
        ensures
            self.row_quads(x, y, zn).contains(q) <==> (0 <= q.cell.z < zn && self.shows(
                q,
                x,
                y,
                q.cell.z as int,
            )),
        decreases zn,
    {
        if zn > 0 {
            self.lemma_row_quads_hold(q, x, y, zn - 1);
            self.lemma_cell_quads_hold(q, x, y, zn - 1, 6);
            lemma_contains_add(self.row_quads(x, y, zn - 1), self.cell_quads(x, y, zn - 1, 6), q);
        }
    }

    proof fn lemma_slab_quads_hold(&self, q: Quad, x: int, yn: int)
        requires
            N <= MAX_EDGE,
            0 <= x < N && 0 <= yn <= N,
        ensures
            self.slab_quads(x, yn).contains(q) <==> (0 <= q.cell.y < yn && 0 <= q.cell.z < N
                && self.shows(q, x, q.cell.y as int, q.cell.z as int)),
        decreases yn,
    {
        if yn > 0 {
            self.lemma_slab_quads_hold(q, x, yn - 1);
            self.lemma_row_quads_hold(q, x, yn - 1, N as int);
            lemma_contains_add(self.slab_quads(x, yn - 1), self.row_quads(x, yn - 1, N as int), q);
        }
    }

    proof fn lemma_chunk_quads_hold(&self, q: Quad, xn: int)
        requires
            N <= MAX_EDGE,
            0 <= xn <= N,
        ensures
            self.chunk_quads(xn).contains(q) <==> (0 <= q.cell.x < xn && 0 <= q.cell.y < N && 0
                <= q.cell.z < N && self.shows(
                q,
                q.cell.x as int,
                q.cell.y as int,
                q.cell.z as int,
            )),
        decreases xn,
    {
        if xn > 0 {
            self.lemma_chunk_quads_hold(q, xn - 1);
            self.lemma_slab_quads_hold(q, xn - 1, N as int);
            lemma_contains_add(self.chunk_quads(xn - 1), self.slab_quads(xn - 1, N as int), q);
        }
    }

    /// The surface holds the visible faces of the interior cells and nothing
    /// else: a quad is part of it exactly if its cell is an interior cell, its
    /// direction is one of the six faces, the cell is solid and the cell next
    /// to it in that direction is transparent.
    pub proof fn lemma_mesh_is_visible_faces(&self, q: Quad)
        requires
            N <= MAX_EDGE,
        ensures
            self.mesh_quads().contains(q) <==> (Self::is_interior(
                q.cell.x as int,
                q.cell.y as int,
                q.cell.z as int,
            ) && q.dir.spec_is_face() && self.face_visible(
                q.cell.x as int,
                q.cell.y as int,
                q.cell.z as int,
                q.dir,
            )),
    {
        self.lemma_chunk_quads_hold(q, N as int);
    }

    proof fn lemma_cell_quads_differ(&self, x: int, y: int, z: int, k: int)
        requires
            N <= MAX_EDGE,
            Self::is_interior(x, y, z),
            0 <= k <= 6,
        ensures
            self.cell_quads(x, y, z, k).no_duplicates(),
        decreases k,
    {
        if k > 0 {
            self.lemma_cell_quads_differ(x, y, z, k - 1);
            let dir = Directions::face_seq()[k - 1];
            let new = Quad { cell: Vec3i { x: x as i32, y: y as i32, z: z as i32 }, dir };
            self.lemma_cell_quads_hold(new, x, y, z, k - 1);
        }
    }

    proof fn lemma_row_quads_differ(&self, x: int, y: int, zn: int)
        requires
            N <= MAX_EDGE,
            0 <= x < N && 0 <= y < N && 0 <= zn <= N,
        ensures
            self.row_quads(x, y, zn).no_duplicates(),
        decreases zn,
    {
        if zn > 0 {
            self.lemma_row_quads_differ(x, y, zn - 1);
            self.lemma_cell_quads_differ(x, y, zn - 1, 6);
            assert forall|q: Quad|
                !(#[trigger] self.row_quads(x, y, zn - 1).contains(q) && self.cell_quads(
                    x,
                    y,
                    zn - 1,
                    6,
                ).contains(q)) by {
                self.lemma_row_quads_hold(q, x, y, zn - 1);
                self.lemma_cell_quads_hold(q, x, y, zn - 1, 6);
            }
            lemma_add_no_duplicates(self.row_quads(x, y, zn - 1), self.cell_quads(x, y, zn - 1, 6));
        }
    }

    proof fn lemma_slab_quads_differ(&self, x: int, yn: int)
        requires
            N <= MAX_EDGE,
            0 <= x < N && 0 <= yn <= N,
        ensures
            self.slab_quads(x, yn).no_duplicates(),
        decreases yn,
    {
        if yn > 0 {
            self.lemma_slab_quads_differ(x, yn - 1);
            self.lemma_row_quads_differ(x, yn - 1, N as int);
            assert forall|q: Quad|
                !(#[trigger] self.slab_quads(x, yn - 1).contains(q) && self.row_quads(
                    x,
                    yn - 1,
                    N as int,
                ).contains(q)) by {
                self.lemma_slab_quads_hold(q, x, yn - 1);
                self.lemma_row_quads_hold(q, x, yn - 1, N as int);
            }
            lemma_add_no_duplicates(self.slab_quads(x, yn - 1), self.row_quads(x, yn - 1, N as int));
        }
    }

    proof fn lemma_chunk_quads_differ(&self, xn: int)
        requires
            N <= MAX_EDGE,
            0 <= xn <= N,
        ensures
            self.chunk_quads(xn).no_duplicates(),
        decreases xn,
    {
        if xn > 0 {
            self.lemma_chunk_quads_differ(xn - 1);
            self.lemma_slab_quads_differ(xn - 1, N as int);
            assert forall|q: Quad|
                !(#[trigger] self.chunk_quads(xn - 1).contains(q) && self.slab_quads(
                    xn - 1,
                    N as int,
                ).contains(q)) by {
                self.lemma_chunk_quads_hold(q, xn - 1);
                self.lemma_slab_quads_hold(q, xn - 1, N as int);
            }
            lemma_add_no_duplicates(self.chunk_quads(xn - 1), self.slab_quads(xn - 1, N as int));
        }
    }

    /// No face is in the surface twice: every visible face is a quad of its own.
    pub proof fn lemma_mesh_has_each_face_once(&self)
        requires
            N <= MAX_EDGE,
        ensures
            self.mesh_quads().no_duplicates(),
    {
        self.lemma_chunk_quads_differ(N as int);
    }

}

} // verus!
