//! The dense three-dimensional array that backs a chunk. The array is
//! `ndarray`'s; what it holds is known to the verifier only through the
//! contracts stated here, which are believed and not proved.

use vstd::prelude::*;
use crate::voxel::Voxel;

verus! {

/// An owned three-dimensional array of voxels (`ndarray::Array3<Voxel>`).
#[derive(Debug)]
#[verifier::external_body]
pub struct VoxelGrid {
    cells: ndarray::Array3<Voxel>,
}

/// What a grid holds: the voxel at each index triple that lies within its shape.
/// The domain of the map is the set of valid indices, so it also gives the shape.
pub uninterp spec fn grid_cells(g: VoxelGrid) -> Map<(int, int, int), Voxel>;

/// Whether `(i, j, k)` is an index into a cubic array with `side` cells along each axis.
pub open spec fn in_cube(side: int, i: int, j: int, k: int) -> bool {
    0 <= i < side && 0 <= j < side && 0 <= k < side
}

/// Whether a cubic array of voxels with `side` cells along each axis can be
/// allocated: the number of cells, and of the bytes they take, fits in `isize`.
pub open spec fn cube_fits(side: int) -> bool {
    0 <= side && 2 * (side * side * side) <= isize::MAX
}

/// `ndarray::Array3::default` with the shape `[side, side, side]`: a cubic array
/// in which every cell holds `Voxel::default()`, the empty voxel. The call panics
/// when the number of cells overflows `isize`, which `cube_fits` rules out.
#[verifier::external_body]
pub(crate) fn grid_new(side: usize) -> (g: VoxelGrid)
    requires
        cube_fits(side as int),
    ensures
        forall|i: int, j: int, k: int|
            grid_cells(g).dom().contains((i, j, k)) <==> in_cube(side as int, i, j, k),
        forall|i: int, j: int, k: int|
            in_cube(side as int, i, j, k) ==> #[trigger] grid_cells(g)[(i, j, k)] == Voxel::empty(),
{
    VoxelGrid { cells: ndarray::Array3::default([side, side, side]) }
}

/// Indexing an `ndarray::Array3` by `[i, j, k]`: the voxel at that index. The
/// call panics on an index outside the shape, which `requires` rules out.
#[verifier::external_body]
pub(crate) fn grid_get(g: &VoxelGrid, i: usize, j: usize, k: usize) -> (v: Voxel)
    requires
        grid_cells(*g).dom().contains((i as int, j as int, k as int)),
    ensures
        v == grid_cells(*g)[(i as int, j as int, k as int)],
{
    g.cells[[i, j, k]]
}

/// Assigning through the mutable index of an `ndarray::Array3`: the cell at
/// `[i, j, k]` holds `v` afterwards and every other cell is as before. The call
/// panics on an index outside the shape, which `requires` rules out.
#[verifier::external_body]
pub(crate) fn grid_set(g: &mut VoxelGrid, i: usize, j: usize, k: usize, v: Voxel)
    requires
        grid_cells(*old(g)).dom().contains((i as int, j as int, k as int)),
    ensures
        grid_cells(*final(g)) == grid_cells(*old(g)).insert((i as int, j as int, k as int), v),
    no_unwind
{
    g.cells[[i, j, k]] = v;
}

/// `Clone::clone` of an `ndarray::Array3`: an array of the same shape that
/// holds the same voxels.
#[verifier::external_body]
pub(crate) fn grid_clone(g: &VoxelGrid) -> (r: VoxelGrid)
    ensures
        grid_cells(r) == grid_cells(*g),
{
    VoxelGrid { cells: g.cells.clone() }
}

} // verus!
