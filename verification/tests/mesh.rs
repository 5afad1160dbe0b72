use voxel_engine::chunk::{Chunk, SChunk};
use voxel_engine::chunk_mesh::ChunkMeshData;
use voxel_engine::directions::Directions;
use voxel_engine::vec3::Vec3i;
use voxel_engine::voxel::Voxel;

fn solid<const N: usize>() -> Chunk<N> {
    let mut chunk = Chunk::<N>::new();
    for x in 0..N {
        for y in 0..N {
            for z in 0..N {
                chunk.data_mut().set([x, y, z], Voxel { id: 1 });
            }
        }
    }
    chunk
}

/// The quads of a mesh as (cell, normal), read back from its buffers.
fn quads(mesh: &ChunkMeshData) -> Vec<(Vec3i, Vec3i)> {
    let mut out = Vec::new();
    for i in 0..mesh.len() {
        let normal = mesh.normals()[4 * i];
        let first = mesh.positions()[4 * i];
        let cell = Vec3i::new(
            first.x - (normal.x > 0) as i32,
            first.y - (normal.y > 0) as i32,
            first.z - (normal.z > 0) as i32,
        );
        out.push((cell, normal));
    }
    out
}

#[test]
fn mesh_of_an_empty_chunk_is_empty() {
    let chunk = SChunk::new();
    let mesh = chunk.mesh();
    assert_eq!(mesh.len(), 0);
    assert!(mesh.positions().is_empty());
    assert!(mesh.normals().is_empty());
    assert!(mesh.indices().is_empty());
}

#[test]
fn mesh_of_a_solid_chunk_is_its_six_sides() {
    assert_eq!(solid::<8>().mesh().len(), 6 * 8 * 8);
    assert_eq!(solid::<3>().mesh().len(), 54);
    assert_eq!(solid::<1>().mesh().len(), 6);
    assert_eq!(solid::<0>().mesh().len(), 0);
    let mesh = solid::<3>().mesh();
    assert_eq!(mesh.positions().len(), 4 * 54);
    assert_eq!(mesh.normals().len(), 4 * 54);
    assert_eq!(mesh.indices().len(), 6 * 54);
    for (cell, normal) in quads(&mesh) {
        // Every quad looks out of the chunk.
        let out = Vec3i::new(cell.x + normal.x, cell.y + normal.y, cell.z + normal.z);
        assert!([out.x, out.y, out.z].iter().any(|c| *c == -1 || *c == 3));
    }
}

#[test]
fn mesh_of_one_voxel() {
    let mut chunk = Chunk::<3>::new();
    chunk.data_mut().set([1, 2, 0], Voxel { id: 4 });
    let mesh = chunk.mesh();
    assert_eq!(mesh.len(), 6);
    let cell = Vec3i::new(1, 2, 0);
    assert_eq!(
        quads(&mesh),
        vec![
            (cell, Vec3i::new(0, 1, 0)),
            (cell, Vec3i::new(0, -1, 0)),
            (cell, Vec3i::new(0, 0, -1)),
            (cell, Vec3i::new(0, 0, 1)),
            (cell, Vec3i::new(1, 0, 0)),
            (cell, Vec3i::new(-1, 0, 0)),
        ]
    );
}

#[test]
fn mesh_hides_faces_between_solid_voxels() {
    let mut chunk = Chunk::<3>::new();
    chunk.data_mut().set([0, 0, 0], Voxel { id: 1 });
    chunk.data_mut().set([0, 0, 1], Voxel { id: 2 });
    let found = quads(&chunk.mesh());
    assert_eq!(found.len(), 10);
    assert!(!found.contains(&(Vec3i::new(0, 0, 0), Vec3i::new(0, 0, 1))));
    assert!(!found.contains(&(Vec3i::new(0, 0, 1), Vec3i::new(0, 0, -1))));
    assert!(found.contains(&(Vec3i::new(0, 0, 1), Vec3i::new(0, 0, 1))));
    // The cells come in the order of their indices.
    assert!(found[..5].iter().all(|q| q.0 == Vec3i::new(0, 0, 0)));
    assert!(found[5..].iter().all(|q| q.0 == Vec3i::new(0, 0, 1)));
}

#[test]
fn mesh_reads_the_halo() {
    let mut other = Chunk::<3>::new();
    other.data_mut().set([1, 0, 1], Voxel { id: 9 });
    let mut chunk = Chunk::<3>::new();
    chunk.data_mut().set([1, 2, 1], Voxel { id: 1 });
    assert_eq!(chunk.mesh().len(), 6);
    // The chunk above holds a solid voxel right above the cell.
    chunk.copy_borders(&other, Directions::up());
    let found = quads(&chunk.mesh());
    assert_eq!(found.len(), 5);
    assert!(!found.contains(&(Vec3i::new(1, 2, 1), Vec3i::new(0, 1, 0))));
}

#[test]
fn quad_buffers() {
    let mut mesh = ChunkMeshData::new();
    mesh.insert_quad(Vec3i::new(2, 3, 4), Directions::east());
    mesh.insert_quad(Vec3i::new(0, 0, 0), Directions::down());
    assert_eq!(mesh.len(), 2);
    assert_eq!(
        mesh.positions(),
        &vec![
            Vec3i::new(3, 3, 4),
            Vec3i::new(3, 4, 4),
            Vec3i::new(3, 4, 5),
            Vec3i::new(3, 3, 5),
            Vec3i::new(0, 0, 0),
            Vec3i::new(1, 0, 0),
            Vec3i::new(1, 0, 1),
            Vec3i::new(0, 0, 1),
        ]
    );
    assert_eq!(mesh.normals()[..4], [Vec3i::new(1, 0, 0); 4]);
    assert_eq!(mesh.normals()[4..], [Vec3i::new(0, -1, 0); 4]);
    assert_eq!(mesh.indices(), &vec![0, 1, 2, 0, 2, 3, 4, 5, 6, 4, 6, 7]);
}

#[test]
fn quads_wind_counter_clockwise() {
    for dir in Directions::faces() {
        let mut mesh = ChunkMeshData::new();
        mesh.insert_quad(Vec3i::new(5, -6, 7), dir);
        let p = mesh.positions();
        let e = (p[1].x - p[0].x, p[1].y - p[0].y, p[1].z - p[0].z);
        let f = (p[2].x - p[0].x, p[2].y - p[0].y, p[2].z - p[0].z);
        let cross = Vec3i::new(e.1 * f.2 - e.2 * f.1, e.2 * f.0 - e.0 * f.2, e.0 * f.1 - e.1 * f.0);
        assert_eq!(cross, dir.to_vec());
        assert_eq!(mesh.normals()[0], dir.to_vec());
        // The four corners are corners of the voxel.
        for c in p.iter() {
            assert!([0, 1].contains(&(c.x - 5)));
            assert!([0, 1].contains(&(c.y + 6)));
            assert!([0, 1].contains(&(c.z - 7)));
        }
    }
}
