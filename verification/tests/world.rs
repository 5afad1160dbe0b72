use std::sync::Arc;

use voxel_engine::chunk::{SChunk, CHSIZE};
use voxel_engine::chunk_position::ChunkPosition;
use voxel_engine::directions::Directions;
use voxel_engine::vec3::Vec3i;
use voxel_engine::voxel::Voxel;
use voxel_engine::world::{
    apply_changes, generate, neighbor, ProceduralGenerator, VoxChange, VoxelWorld,
};

/// Nothing but empty space.
struct Void;

impl ProceduralGenerator for Void {
    fn voxel(&self, _pos: &ChunkPosition, _index: [usize; 3]) -> Voxel {
        Voxel { id: 0 }
    }
}

/// A different voxel in every cell of every chunk near the origin.
struct Numbered;

fn numbered(pos: &ChunkPosition, index: [usize; 3]) -> u16 {
    let chunk = ((pos.pos.x + 2) * 25 + (pos.pos.y + 2) * 5 + (pos.pos.z + 2)) as u16;
    chunk * 512 + (index[0] * 64 + index[1] * 8 + index[2]) as u16 + 1
}

impl ProceduralGenerator for Numbered {
    fn voxel(&self, pos: &ChunkPosition, index: [usize; 3]) -> Voxel {
        Voxel { id: numbered(pos, index) }
    }
}

fn at(x: i32, y: i32, z: i32) -> ChunkPosition {
    ChunkPosition::new(Vec3i::new(x, y, z))
}

fn halo_of(chunk: &SChunk) -> Vec<u16> {
    let n = CHSIZE as i32;
    let mut cells = Vec::new();
    for x in -1..=n {
        for y in -1..=n {
            for z in -1..=n {
                let inside = (0..n).contains(&x) && (0..n).contains(&y) && (0..n).contains(&z);
                if !inside {
                    cells.push(chunk.voxel_at(x, y, z).id);
                }
            }
        }
    }
    cells
}

#[test]
fn new_chunks_come_from_the_generator() {
    let mut world = VoxelWorld::new(Numbered);
    let pos = at(1, -2, 0);
    let chunk = world.chunk_at_or_create(&pos);
    for x in 0..CHSIZE {
        for y in 0..CHSIZE {
            for z in 0..CHSIZE {
                assert_eq!(chunk.data().get([x, y, z]).id, numbered(&pos, [x, y, z]));
            }
        }
    }
    assert!(halo_of(&chunk).iter().all(|id| *id == 0));
    assert_eq!(halo_of(&chunk).len(), 10 * 10 * 10 - 8 * 8 * 8);
    assert_eq!(world.voxel_at(&pos, &[1, 2, 3]).id, numbered(&pos, [1, 2, 3]));
    assert_eq!(world.voxel_at(&at(0, 0, 0), &[1, 2, 3]).id, numbered(&at(0, 0, 0), [1, 2, 3]));
}

#[test]
fn asking_twice_gives_the_same_chunk() {
    let mut world = VoxelWorld::new(Numbered);
    let pos = at(0, 0, 0);
    world.chunk_at_or_create(&pos);
    world.set_voxel_at(&pos, &[4, 4, 4], Voxel { id: 9 });
    world.apply_voxel_changes();
    // A second chunk from the generator would not hold the edit.
    let again = world.chunk_at_or_create(&pos);
    assert_eq!(again.voxel_at(4, 4, 4).id, 9);
    assert_eq!(again.voxel_at(4, 4, 5).id, numbered(&pos, [4, 4, 5]));
    // Every caller gets a handle to the one chunk that is stored.
    let first = world.chunk_at_or_create(&pos);
    let second = world.chunk_at_or_create(&pos);
    assert!(Arc::ptr_eq(&first, &second));
    assert!(Arc::ptr_eq(&again, &first));
    let fresh = world.chunk_at_or_create(&at(9, 9, 9));
    assert!(Arc::ptr_eq(&fresh, &world.chunk_at_or_create(&at(9, 9, 9))));
    assert!(!Arc::ptr_eq(&fresh, &first));
}

#[test]
fn edit_shows_after_the_commit_only() {
    let mut world = VoxelWorld::new(Numbered);
    let pos = at(0, 1, 0);
    let before = world.voxel_at(&pos, &[2, 3, 4]);
    assert_eq!(before.id, numbered(&pos, [2, 3, 4]));
    world.set_voxel_at(&pos, &[2, 3, 4], Voxel { id: 7 });
    assert_eq!(world.voxel_at(&pos, &[2, 3, 4]), before);
    world.apply_voxel_changes();
    assert_eq!(world.voxel_at(&pos, &[2, 3, 4]), Voxel { id: 7 });
    assert_eq!(world.voxel_at(&pos, &[2, 3, 5]).id, numbered(&pos, [2, 3, 5]));
    // Nothing waits any more: a second commit changes nothing.
    world.apply_voxel_changes();
    assert_eq!(world.voxel_at(&pos, &[2, 3, 4]), Voxel { id: 7 });
}

#[test]
fn edit_of_a_chunk_that_is_not_there_makes_it() {
    let mut world = VoxelWorld::new(Numbered);
    let pos = at(2, 2, 2);
    world.set_voxel_at(&pos, &[3, 3, 3], Voxel { id: 5 });
    world.apply_voxel_changes();
    assert_eq!(world.voxel_at(&pos, &[3, 3, 3]).id, 5);
    assert_eq!(world.voxel_at(&pos, &[3, 3, 2]).id, numbered(&pos, [3, 3, 2]));
}

#[test]
fn later_edit_of_a_cell_wins() {
    let mut world = VoxelWorld::new(Void);
    let pos = at(0, 0, 0);
    let idx = [1, 2, 3];
    world.set_voxel_at(&pos, &idx, Voxel { id: 11 });
    world.set_voxel_at(&pos, &idx, Voxel { id: 22 });
    world.apply_voxel_changes();
    assert_eq!(world.voxel_at(&pos, &idx), Voxel { id: 22 });

    world.set_voxel_at(&pos, &idx, Voxel { id: 3 });
    world.set_voxel_at(&at(5, 5, 5), &idx, Voxel { id: 4 });
    world.set_voxel_at(&pos, &[1, 2, 4], Voxel { id: 5 });
    world.set_voxel_at(&pos, &idx, Voxel { id: 6 });
    world.apply_voxel_changes();
    assert_eq!(world.voxel_at(&pos, &idx).id, 6);
    assert_eq!(world.voxel_at(&pos, &[1, 2, 4]).id, 5);
    assert_eq!(world.voxel_at(&at(5, 5, 5), &idx).id, 4);
}

#[test]
fn border_edit_reaches_the_neighbour() {
    let mut world = VoxelWorld::new(Void);
    let origin = at(0, 0, 0);
    let n = CHSIZE as i32;
    world.chunk_at_or_create(&origin);
    let own_halo = halo_of(&world.chunk_at_or_create(&origin));

    world.set_voxel_at(&origin, &[CHSIZE - 1, 0, 0], Voxel { id: 42 });
    world.apply_voxel_changes();

    assert_eq!(world.voxel_at(&origin, &[CHSIZE - 1, 0, 0]).id, 42);
    // The cell is on the eastern, the lower and the northern face.
    let east = world.chunk_at_or_create(&at(1, 0, 0));
    assert_eq!(east.voxel_at(-1, 0, 0).id, 42);
    assert_eq!(halo_of(&east).iter().filter(|id| **id != 0).count(), 1);
    let below = world.chunk_at_or_create(&at(0, -1, 0));
    assert_eq!(below.voxel_at(n - 1, n, 0).id, 42);
    assert_eq!(halo_of(&below).iter().filter(|id| **id != 0).count(), 1);
    let north = world.chunk_at_or_create(&at(0, 0, -1));
    assert_eq!(north.voxel_at(n - 1, 0, n).id, 42);
    assert_eq!(halo_of(&north).iter().filter(|id| **id != 0).count(), 1);
    // Its own halo is as it was.
    assert_eq!(halo_of(&world.chunk_at_or_create(&origin)), own_halo);
    // The neighbours' interiors are untouched.
    assert_eq!(world.voxel_at(&at(1, 0, 0), &[0, 0, 0]).id, 0);
}

#[test]
fn border_copy_takes_the_whole_face() {
    let mut world = VoxelWorld::new(Numbered);
    let origin = at(0, 0, 0);
    let n = CHSIZE as i32;
    world.set_voxel_at(&origin, &[3, CHSIZE - 1, 4], Voxel { id: 1 });
    world.apply_voxel_changes();
    let mut want = Vec::new();
    {
        let chunk = world.chunk_at_or_create(&origin);
        for x in 0..n {
            for z in 0..n {
                want.push(chunk.voxel_at(x, n - 1, z).id);
            }
        }
    }
    assert_eq!(want[3 * 8 + 4], 1);
    let above = world.chunk_at_or_create(&at(0, 1, 0));
    let mut have = Vec::new();
    for x in 0..n {
        for z in 0..n {
            have.push(above.voxel_at(x, -1, z).id);
        }
    }
    assert_eq!(have, want);
    // The other halo faces of the chunk above are still empty.
    assert_eq!(halo_of(&above).iter().filter(|id| **id != 0).count(), 64);
}

#[test]
fn interior_edit_makes_no_neighbour() {
    let mut world = VoxelWorld::new(Void);
    let origin = at(0, 0, 0);
    world.chunk_at_or_create(&at(1, 0, 0));
    world.set_voxel_at(&origin, &[3, 3, 3], Voxel { id: 8 });
    world.apply_voxel_changes();
    let east = world.chunk_at_or_create(&at(1, 0, 0));
    assert!(halo_of(&east).iter().all(|id| *id == 0));
}

#[test]
fn both_sides_of_a_seam() {
    let mut world = VoxelWorld::new(Void);
    let west = at(0, 0, 0);
    let east = at(1, 0, 0);
    let n = CHSIZE as i32;
    world.set_voxel_at(&west, &[CHSIZE - 1, 2, 2], Voxel { id: 1 });
    world.set_voxel_at(&east, &[0, 2, 2], Voxel { id: 2 });
    world.apply_voxel_changes();
    assert_eq!(world.chunk_at_or_create(&east).voxel_at(-1, 2, 2).id, 1);
    assert_eq!(world.chunk_at_or_create(&west).voxel_at(n, 2, 2).id, 2);
    assert_eq!(world.voxel_at(&west, &[CHSIZE - 1, 2, 2]).id, 1);
    assert_eq!(world.voxel_at(&east, &[0, 2, 2]).id, 2);
}

#[test]
fn world_ends_at_the_last_chunk() {
    let mut world = VoxelWorld::new(Void);
    let last = at(i32::MAX, 0, 0);
    assert_eq!(neighbor(last, Directions::east()), None);
    assert_eq!(neighbor(last, Directions::west()), Some(at(i32::MAX - 1, 0, 0)));
    assert_eq!(neighbor(at(0, i32::MIN, 0), Directions::down()), None);
    assert_eq!(neighbor(at(1, 2, 3), Directions::south()), Some(at(1, 2, 4)));
    assert_eq!(neighbor(at(1, 2, 3), Directions::north()), Some(at(1, 2, 2)));
    assert_eq!(neighbor(at(1, 2, 3), Directions::up()), Some(at(1, 3, 3)));
    world.set_voxel_at(&last, &[CHSIZE - 1, 3, 3], Voxel { id: 3 });
    world.apply_voxel_changes();
    assert_eq!(world.voxel_at(&last, &[CHSIZE - 1, 3, 3]).id, 3);
}

#[test]
fn positions_split_into_chunk_and_index() {
    let split = |x, y, z| VoxelWorld::<Void>::to_ch_pos_index(&Vec3i::new(x, y, z));
    assert_eq!(split(0, 0, 0), (at(0, 0, 0), [0, 0, 0]));
    assert_eq!(split(7, 8, 9), (at(0, 1, 1), [7, 0, 1]));
    assert_eq!(split(-1, -8, -9), (at(-1, -1, -2), [7, 0, 7]));
    assert_eq!(split(15, 16, -16), (at(1, 2, -2), [7, 0, 0]));
    assert_eq!(split(i32::MAX, i32::MIN, -7), (at(268435455, -268435456, -1), [7, 0, 1]));
}

#[test]
fn reads_and_writes_by_position() {
    let mut world = VoxelWorld::new(Numbered);
    let p = Vec3i::new(-1, 9, 16);
    assert_eq!(world.voxel_at_pos(&p).id, numbered(&at(-1, 1, 2), [7, 1, 0]));
    world.set_voxel_at_pos(&p, Voxel { id: 77 });
    assert_eq!(world.voxel_at_pos(&p).id, numbered(&at(-1, 1, 2), [7, 1, 0]));
    world.apply_voxel_changes();
    assert_eq!(world.voxel_at_pos(&p).id, 77);
    assert_eq!(world.voxel_at(&at(-1, 1, 2), &[7, 1, 0]).id, 77);
    // The cell is on the eastern and the northern face of its chunk.
    assert_eq!(world.chunk_at_or_create(&at(0, 1, 2)).voxel_at(-1, 1, 0).id, 77);
    assert_eq!(world.chunk_at_or_create(&at(-1, 1, 1)).voxel_at(7, 1, 8).id, 77);
}

#[test]
fn changes_are_applied_in_order() {
    let mut chunk = SChunk::new();
    let edits = vec![
        VoxChange::new([0, 0, 0], Voxel { id: 1 }),
        VoxChange::new([3, 3, 3], Voxel { id: 2 }),
        VoxChange::new([0, 0, 0], Voxel { id: 3 }),
        VoxChange::new([3, 7, 3], Voxel { id: 4 }),
    ];
    let faces = apply_changes(&mut chunk, &edits);
    assert_eq!(chunk.voxel_at(0, 0, 0).id, 3);
    assert_eq!(chunk.voxel_at(3, 3, 3).id, 2);
    assert_eq!(chunk.voxel_at(3, 7, 3).id, 4);
    assert_eq!(
        faces,
        Directions::west()
            .union(Directions::down())
            .union(Directions::north())
            .union(Directions::up())
    );
    assert_eq!(apply_changes(&mut chunk, &Vec::new()), Directions::empty());
    let c = VoxChange::new([1, 2, 3], Voxel { id: 5 });
    assert_eq!(c.index, [1, 2, 3]);
    assert_eq!(c.new_vox, Voxel { id: 5 });
}

#[test]
fn generate_asks_for_every_interior_cell() {
    let pos = at(-2, 0, 1);
    let chunk = generate(&Numbered, &pos);
    let n = CHSIZE as i32;
    for x in -1..=n {
        for y in -1..=n {
            for z in -1..=n {
                let inside = (0..n).contains(&x) && (0..n).contains(&y) && (0..n).contains(&z);
                let want = if inside {
                    numbered(&pos, [x as usize, y as usize, z as usize])
                } else {
                    0
                };
                assert_eq!(chunk.voxel_at(x, y, z).id, want);
            }
        }
    }
    assert!(halo_of(&generate(&Void, &pos)).iter().all(|id| *id == 0));
}

#[test]
fn chunks_far_apart_are_kept_apart() {
    let mut world = VoxelWorld::new(Void);
    let places = [
        at(0, 0, 0),
        at(0, 0, 1),
        at(0, 1, 0),
        at(1, 0, 0),
        at(-1, 0, 0),
        at(0, 0, -1),
        at(i32::MAX, i32::MAX, i32::MAX),
        at(i32::MIN, i32::MIN, i32::MIN),
        at(i32::MIN, 0, i32::MAX),
        at(65536, 0, 0),
        at(0, 65536, 0),
        at(0, 0, 65536),
    ];
    for (i, p) in places.iter().enumerate() {
        world.set_voxel_at(p, &[4, 4, 4], Voxel { id: i as u16 + 1 });
    }
    world.apply_voxel_changes();
    for (i, p) in places.iter().enumerate() {
        assert_eq!(world.voxel_at(p, &[4, 4, 4]).id, i as u16 + 1);
    }
}

#[test]
fn handles_are_snapshots() {
    let mut world = VoxelWorld::new(Numbered);
    let pos = at(0, 0, 0);
    let before = world.chunk_at_or_create(&pos);
    world.set_voxel_at(&pos, &[1, 1, 1], Voxel { id: 3 });
    world.apply_voxel_changes();
    let after = world.chunk_at_or_create(&pos);
    // The handle from before the commit still shows the chunk as it was.
    assert_eq!(before.voxel_at(1, 1, 1).id, numbered(&pos, [1, 1, 1]));
    assert_eq!(after.voxel_at(1, 1, 1).id, 3);
    assert_eq!(after.voxel_at(1, 1, 2), before.voxel_at(1, 1, 2));
}

#[test]
fn dirty_marks() {
    let mut world = VoxelWorld::new(Void);
    let a = at(1, 2, 3);
    let b = at(3, 2, 1);
    assert!(!world.is_dirty(&a));
    world.mark_dirty(&a);
    assert!(world.is_dirty(&a));
    assert!(!world.is_dirty(&b));
    world.mark_dirty(&a);
    world.mark_dirty(&b);
    // Neither edits nor a commit touch the marks.
    world.set_voxel_at(&a, &[0, 0, 0], Voxel { id: 1 });
    world.apply_voxel_changes();
    assert!(world.is_dirty(&a));
    assert!(world.is_dirty(&b));
    assert!(!world.is_dirty(&at(0, 2, 3)));
    assert!(world.clear_dirty(&a));
    assert!(!world.clear_dirty(&a));
    assert!(!world.is_dirty(&a));
    assert!(world.is_dirty(&b));
    assert_eq!(world.voxel_at(&a, &[0, 0, 0]).id, 1);
}
