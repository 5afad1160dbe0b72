use voxel_engine::chunk::{Chunk, SChunk, CHSIZE, CHSIZEI, MAX_EDGE};
use voxel_engine::directions::Directions;
use voxel_engine::voxel::Voxel;

const SMALLCH: usize = 3;
type SmallChunk = Chunk<SMALLCH>;

type Table = [[[i32; 3]; 3]; 3];

const CONTROL: Table = [
    [[1, 10, 19], [2, 11, 20], [3, 12, 21]],
    [[4, 13, 22], [5, 14, 23], [6, 15, 24]],
    [[7, 16, 25], [8, 17, 26], [9, 18, 27]],
];

fn check(expected: &Table, control: &Table, fn_view: impl Fn((i32, i32, i32)) -> (i32, i32, i32)) {
    let mut actual: Table = [[[0; 3]; 3]; 3];
    for x in 0..SMALLCH {
        for y in 0..SMALLCH {
            for z in 0..SMALLCH {
                let (a, b, c) = fn_view((x as i32, y as i32, z as i32));
                actual[x][y][z] = control[a as usize][b as usize][c as usize];
            }
        }
    }
    assert_eq!(expected, &actual);
}

fn filled_from(table: &Table) -> SmallChunk {
    let mut chunk = SmallChunk::new();
    for x in 0..SMALLCH {
        for y in 0..SMALLCH {
            for z in 0..SMALLCH {
                chunk.data_mut().set([x, y, z], Voxel::from(table[x][y][z] as u16));
            }
        }
    }
    chunk
}

#[test]
fn chunk_data_dimensions() {
    let mut chunk = SmallChunk::new();

    let data = chunk.data_mut();

    assert_eq!(&data.shape(), &[SMALLCH, SMALLCH, SMALLCH]);
}

#[test]
fn rotate_xy() {
    let control = [
        [[1, 10, 19], [2, 11, 20], [3, 12, 21]],
        [[4, 13, 22], [5, 14, 23], [6, 15, 24]],
        [[7, 16, 25], [8, 17, 26], [9, 18, 27]],
    ];
    let expected = [
        [[7, 16, 25], [4, 13, 22], [1, 10, 19]],
        [[8, 17, 26], [5, 14, 23], [2, 11, 20]],
        [[9, 18, 27], [6, 15, 24], [3, 12, 21]],
    ];

    check(&expected, &control, |p| SmallChunk::rotate90_xy(p));
}

#[test]
fn rotate_xz() {
    let control = [
        [[1, 10, 19], [2, 11, 20], [3, 12, 21]],
        [[4, 13, 22], [5, 14, 23], [6, 15, 24]],
        [[7, 16, 25], [8, 17, 26], [9, 18, 27]],
    ];
    let expected = [
        [[7, 4, 1], [8, 5, 2], [9, 6, 3]],
        [[16, 13, 10], [17, 14, 11], [18, 15, 12]],
        [[25, 22, 19], [26, 23, 20], [27, 24, 21]],
    ];

    check(&expected, &control, |p| SmallChunk::rotate90_xz(p));
}

#[test]
fn rotate_yz() {
    let control = [
        [[1, 10, 19], [2, 11, 20], [3, 12, 21]],
        [[4, 13, 22], [5, 14, 23], [6, 15, 24]],
        [[7, 16, 25], [8, 17, 26], [9, 18, 27]],
    ];
    let expected = [
        [[3, 2, 1], [12, 11, 10], [21, 20, 19]],
        [[6, 5, 4], [15, 14, 13], [24, 23, 22]],
        [[9, 8, 7], [18, 17, 16], [27, 26, 25]],
    ];

    check(&expected, &control, |p| SmallChunk::rotate90_yz(p));
}

#[test]
fn copy_up() {
    let up = [
        [[1, 10, 19], [2, 11, 20], [3, 12, 21]],
        [[4, 13, 22], [5, 14, 23], [6, 15, 24]],
        [[7, 16, 25], [8, 17, 26], [9, 18, 27]],
    ];
    let upch = filled_from(&up);

    let mut this = SmallChunk::new();

    this.copy_borders(&upch, Directions::up());

    // The lowest layer of the chunk above, halo cells along its rim included,
    // against the layer of the halo above the interior.
    let mut up_slice = Vec::new();
    let mut this_slice = Vec::new();
    for x in -1..=3 {
        for z in -1..=3 {
            up_slice.push(upch.voxel_at(x, 0, z).id);
            this_slice.push(this.voxel_at(x, 3, z).id);
        }
    }

    assert_eq!(up_slice, this_slice);
    assert_eq!(this.voxel_at(0, 3, 0).id, 1);
    assert_eq!(this.voxel_at(2, 3, 1).id, 16);
    assert_eq!(this.voxel_at(1, 3, 2).id, 22);
}

#[test]
fn new_chunk_is_empty_everywhere() {
    let chunk = SmallChunk::new();
    for x in -1..=3 {
        for y in -1..=3 {
            for z in -1..=3 {
                assert_eq!(chunk.voxel_at(x, y, z), Voxel { id: 0 });
                assert!(chunk.voxel_at(x, y, z).is_transparent());
            }
        }
    }
}

#[test]
fn data_shape_is_the_interior() {
    let chunk = SChunk::new();
    assert_eq!(chunk.data().shape(), [CHSIZE, CHSIZE, CHSIZE]);
    assert_eq!(CHSIZEI as usize, CHSIZE);
    let one = Chunk::<1>::new();
    assert_eq!(one.data().shape(), [1, 1, 1]);
    let none = Chunk::<0>::new();
    assert_eq!(none.data().shape(), [0, 0, 0]);
    assert!(CHSIZE <= MAX_EDGE);
}

#[test]
fn set_changes_one_interior_cell() {
    let mut chunk = SmallChunk::new();
    chunk.data_mut().set([0, 1, 2], Voxel { id: 7 });
    assert_eq!(chunk.data().get([0, 1, 2]), Voxel { id: 7 });
    assert_eq!(chunk.voxel_at(0, 1, 2), Voxel { id: 7 });
    let mut others = 0;
    for x in -1..=3 {
        for y in -1..=3 {
            for z in -1..=3 {
                if (x, y, z) != (0, 1, 2) {
                    assert_eq!(chunk.voxel_at(x, y, z).id, 0);
                    others += 1;
                }
            }
        }
    }
    assert_eq!(others, 124);
    chunk.data_mut().set([0, 1, 2], Voxel { id: 9 });
    assert_eq!(chunk.data().get([0, 1, 2]).id, 9);
}

#[test]
fn writes_through_data_mut_leave_the_halo_alone() {
    let chunk = filled_from(&CONTROL);
    for x in -1..=3i32 {
        for y in -1..=3i32 {
            for z in -1..=3i32 {
                let inside = (0..3).contains(&x) && (0..3).contains(&y) && (0..3).contains(&z);
                if inside {
                    let want = CONTROL[x as usize][y as usize][z as usize] as u16;
                    assert_eq!(chunk.voxel_at(x, y, z).id, want);
                } else {
                    assert_eq!(chunk.voxel_at(x, y, z).id, 0);
                }
            }
        }
    }
}

#[test]
fn rotations_have_order_four() {
    for x in 0..3 {
        for y in 0..3 {
            for z in 0..3 {
                let p = (x, y, z);
                let xy = |p| SmallChunk::rotate90_xy(p);
                let xz = |p| SmallChunk::rotate90_xz(p);
                let yz = |p| SmallChunk::rotate90_yz(p);
                assert_eq!(xy(xy(xy(xy(p)))), p);
                assert_eq!(xz(xz(xz(xz(p)))), p);
                assert_eq!(yz(yz(yz(yz(p)))), p);
                if (x, y) != (1, 1) {
                    assert_ne!(xy(p), p);
                    assert_ne!(xy(xy(p)), p);
                }
            }
        }
    }
}

#[test]
fn rotation_values() {
    assert_eq!(SmallChunk::rotate90_xy((0, 1, 2)), (1, 0, 2));
    assert_eq!(SmallChunk::rotate90_xz((0, 1, 2)), (0, 1, 0));
    assert_eq!(SmallChunk::rotate90_yz((0, 1, 2)), (0, 0, 1));
    assert_eq!(SChunk::rotate90_xy((0, 7, 3)), (0, 0, 3));
    assert_eq!(SChunk::rotate90_xy((5, 0, 3)), (7, 5, 3));
    assert_eq!(SChunk::rotate90_yz((5, 0, 3)), (5, 4, 0));
    assert_eq!(SChunk::rotate90_xz((5, 0, 3)), (4, 0, 5));
}

#[test]
fn rotations_fit_together() {
    for x in 0..3 {
        for y in 0..3 {
            for z in 0..3 {
                let p = (x, y, z);
                let xy = |p| SmallChunk::rotate90_xy(p);
                let xz = |p| SmallChunk::rotate90_xz(p);
                let yz = |p| SmallChunk::rotate90_yz(p);
                assert_eq!(xy(yz(p)), xz(xz(xz(xy(p)))));
                assert_eq!(yz(xz(p)), xy(xy(xy(yz(p)))));
                assert_eq!(xz(xy(p)), yz(yz(yz(xz(p)))));
            }
        }
    }
}

fn check_face(dir: Directions, halo: impl Fn(i32, i32) -> (i32, i32, i32), from: impl Fn(i32, i32) -> (i32, i32, i32)) {
    let other = filled_from(&CONTROL);
    let mut this = SmallChunk::new();
    this.copy_borders(&other, dir);
    let mut written = Vec::new();
    for a in 0..3 {
        for b in 0..3 {
            let h = halo(a, b);
            let f = from(a, b);
            assert_eq!(this.voxel_at(h.0, h.1, h.2), other.voxel_at(f.0, f.1, f.2));
            assert_ne!(this.voxel_at(h.0, h.1, h.2).id, 0);
            written.push(h);
        }
    }
    for x in -1..=3 {
        for y in -1..=3 {
            for z in -1..=3 {
                if !written.contains(&(x, y, z)) {
                    assert_eq!(this.voxel_at(x, y, z).id, 0);
                }
            }
        }
    }
}

#[test]
fn copy_borders_each_face() {
    check_face(Directions::up(), |a, b| (a, 3, b), |a, b| (a, 0, b));
    check_face(Directions::down(), |a, b| (a, -1, b), |a, b| (a, 2, b));
    check_face(Directions::east(), |a, b| (3, a, b), |a, b| (0, a, b));
    check_face(Directions::west(), |a, b| (-1, a, b), |a, b| (2, a, b));
    check_face(Directions::south(), |a, b| (a, b, 3), |a, b| (a, b, 0));
    check_face(Directions::north(), |a, b| (a, b, -1), |a, b| (a, b, 2));
}

#[test]
fn copy_borders_cancels_opposite_directions() {
    let dir = Directions::up().union(Directions::east()).union(Directions::west());
    check_face(dir, |a, b| (a, 3, b), |a, b| (a, 0, b));
}

#[test]
fn copy_borders_keeps_other_halo_faces() {
    let other = filled_from(&CONTROL);
    let mut this = SmallChunk::new();
    this.copy_borders(&other, Directions::up());
    this.copy_borders(&other, Directions::west());
    assert_eq!(this.voxel_at(1, 3, 1).id, CONTROL[1][0][1] as u16);
    assert_eq!(this.voxel_at(-1, 1, 1).id, CONTROL[2][1][1] as u16);
    assert_eq!(this.voxel_at(3, 1, 1).id, 0);
}

#[test]
fn border_of_cells() {
    assert_eq!(SChunk::is_on_border(&[3, 4, 5]), None);
    assert_eq!(SChunk::is_on_border(&[1, 1, 6]), None);
    assert_eq!(SChunk::is_on_border(&[7, 4, 5]), Some(Directions::east()));
    assert_eq!(SChunk::is_on_border(&[0, 4, 5]), Some(Directions::west()));
    assert_eq!(SChunk::is_on_border(&[3, 7, 5]), Some(Directions::up()));
    assert_eq!(SChunk::is_on_border(&[3, 0, 5]), Some(Directions::down()));
    assert_eq!(SChunk::is_on_border(&[3, 4, 7]), Some(Directions::south()));
    assert_eq!(SChunk::is_on_border(&[3, 4, 0]), Some(Directions::north()));
    assert_eq!(
        SChunk::is_on_border(&[7, 0, 0]),
        Some(Directions::east().union(Directions::down()).union(Directions::north()))
    );
    assert_eq!(SChunk::is_on_border(&[0, 7, 3]), Some(Directions::west().union(Directions::up())));
    assert_eq!(Chunk::<1>::is_on_border(&[0, 0, 0]), Some(Directions::all()));
}

#[test]
fn clone_holds_the_same_voxels() {
    let mut chunk = filled_from(&CONTROL);
    chunk.copy_borders(&filled_from(&CONTROL), Directions::east());
    let copy = chunk.clone();
    chunk.data_mut().set([0, 0, 0], Voxel { id: 99 });
    for x in -1..=3 {
        for y in -1..=3 {
            for z in -1..=3 {
                if (x, y, z) == (0, 0, 0) {
                    assert_eq!(copy.voxel_at(x, y, z).id, 1);
                    assert_eq!(chunk.voxel_at(x, y, z).id, 99);
                } else {
                    assert_eq!(copy.voxel_at(x, y, z), chunk.voxel_at(x, y, z));
                }
            }
        }
    }
    assert_eq!(copy.voxel_at(3, 1, 1).id, 11);
}
