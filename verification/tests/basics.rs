use std::cmp::Ordering;
use voxel_engine::chunk_position::ChunkPosition;
use voxel_engine::directions::Directions;
use voxel_engine::vec3::Vec3i;
use voxel_engine::voxel::Voxel;

fn at(x: i32, y: i32, z: i32) -> ChunkPosition {
    ChunkPosition::new(Vec3i::new(x, y, z))
}

#[test]
fn voxel_is_transparent_for_zero_only() {
    assert!(Voxel { id: 0 }.is_transparent());
    assert!(!Voxel { id: 1 }.is_transparent());
    assert!(!Voxel { id: u16::MAX }.is_transparent());
    assert!(Voxel::default().is_transparent());
    assert_eq!(Voxel::default(), Voxel { id: 0 });
    assert_eq!(Voxel::from(17), Voxel { id: 17 });
}

#[test]
fn chunk_positions_order_by_x_then_y_then_z() {
    assert_eq!(at(0, 0, 0).compare(&at(0, 0, 0)), Ordering::Equal);
    assert_eq!(at(0, 5, 5).compare(&at(1, 0, 0)), Ordering::Less);
    assert_eq!(at(1, 0, 9).compare(&at(1, 1, 0)), Ordering::Less);
    assert_eq!(at(1, 1, 0).compare(&at(1, 1, -1)), Ordering::Greater);
    assert_eq!(at(-1, 9, 9).compare(&at(0, 0, 0)), Ordering::Less);
    assert_eq!(at(2, 0, 0).partial_cmp(&at(1, 9, 9)), Some(Ordering::Greater));
    assert!(at(0, 0, 1) < at(0, 1, 0));
    assert!(at(0, 1, 0) < at(1, 0, 0));
    // The derived total order agrees.
    let mut all = Vec::new();
    for x in -1..=1 {
        for y in -1..=1 {
            for z in -1..=1 {
                all.push(at(x, y, z));
            }
        }
    }
    for a in &all {
        for b in &all {
            assert_eq!(a.cmp(b), a.compare(b));
            assert_eq!(a.partial_cmp(b), Some(a.compare(b)));
        }
    }
    let mut sorted = all.clone();
    sorted.reverse();
    sorted.sort();
    assert_eq!(sorted, all);
}

#[test]
fn chunk_position_construction() {
    assert_eq!(ChunkPosition::default(), at(0, 0, 0));
    assert_eq!(ChunkPosition::from(Vec3i::new(1, 2, 3)), at(1, 2, 3));
    assert_eq!(at(1, 2, 3).pos, Vec3i::new(1, 2, 3));
    assert_eq!(Vec3i::zeros(), Vec3i::new(0, 0, 0));
    assert_eq!(Vec3i::new(4, 5, 6).y, 5);
}

#[test]
fn direction_vectors() {
    assert_eq!(Directions::up().to_vec(), Vec3i::new(0, 1, 0));
    assert_eq!(Directions::down().to_vec(), Vec3i::new(0, -1, 0));
    assert_eq!(Directions::east().to_vec(), Vec3i::new(1, 0, 0));
    assert_eq!(Directions::west().to_vec(), Vec3i::new(-1, 0, 0));
    assert_eq!(Directions::south().to_vec(), Vec3i::new(0, 0, 1));
    assert_eq!(Directions::north().to_vec(), Vec3i::new(0, 0, -1));
    assert_eq!(Directions::empty().to_vec(), Vec3i::new(0, 0, 0));
    assert_eq!(Directions::all().to_vec(), Vec3i::new(0, 0, 0));
    assert_eq!(Directions::up().union(Directions::east()).to_vec(), Vec3i::new(1, 1, 0));
    assert_eq!(Directions::from(Vec3i::new(1, 1, 0)), Directions::up().union(Directions::east()));
    assert_eq!(Directions::from(Vec3i::new(0, 0, -5)), Directions::north());
    assert_eq!(Directions::from(Vec3i::new(0, 0, 0)), Directions::empty());
}

#[test]
fn direction_sets() {
    for face in Directions::faces() {
        assert!(face.is_face());
        assert!(!face.is_empty());
        assert!(face.invert().is_face());
        assert_ne!(face.invert(), face);
        assert_eq!(face.invert().invert(), face);
        assert_eq!(Directions::from(face.to_vec()), face);
        assert!(Directions::all().contains(face));
        assert!(!Directions::empty().contains(face));
        let v = face.to_vec();
        let w = face.invert().to_vec();
        assert_eq!((v.x + w.x, v.y + w.y, v.z + w.z), (0, 0, 0));
    }
    assert_eq!(
        Directions::faces(),
        [
            Directions::up(),
            Directions::down(),
            Directions::north(),
            Directions::south(),
            Directions::east(),
            Directions::west(),
        ]
    );
    assert_eq!(Directions::up().invert(), Directions::down());
    assert_eq!(Directions::east().invert(), Directions::west());
    assert_eq!(Directions::south().invert(), Directions::north());
    assert!(Directions::empty().is_empty());
    assert!(!Directions::empty().is_face());
    assert!(!Directions::all().is_face());
    let edge = Directions::up().union(Directions::east());
    assert!(!edge.is_face());
    assert!(edge.contains(Directions::up()));
    assert!(edge.contains(Directions::east()));
    assert!(!edge.contains(Directions::down()));
    assert!(edge.contains(Directions::empty()));
    assert!(!Directions::up().contains(edge));
    assert_eq!(edge.invert(), Directions::down().union(Directions::west()));
}
