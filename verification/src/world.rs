//! The world: chunks by position, made on first access, and the edits that
//! wait for the next commit.
//!
//! A chunk of the world is a snapshot: it is handed out behind an `Arc` and
//! never changes. A commit puts a new snapshot in the place of each chunk that
//! it changes, so that whoever holds a handle sees a chunk either as it was
//! before a commit or as it is after one, never in between.
//!
//! The world also keeps the marks of the chunks whose meshes are out of date.
//! Who sets and who clears them is up to the world's user.

use std::sync::Arc;
use vstd::prelude::*;
use crate::chunk::{SChunk, CHSIZE, CHSIZEI};
use crate::chunk_position::ChunkPosition;
use crate::directions::Directions;
use crate::store::{
    chunk_map_get, chunk_map_insert, chunk_map_new, chunk_map_try_insert, map_chunks,
    position_set_contains, position_set_insert, position_set_new, position_set_remove,
    set_positions, ChunkMap, PositionSet,
};
use crate::vec3::Vec3i;
use crate::voxel::Voxel;

verus! {

/// An edit that waits for the next commit: the voxel that the interior cell
/// `index` of a chunk is to hold.
#[derive(Debug, Clone, Copy)]
pub struct VoxChange {
    pub new_vox: Voxel,
    pub index: [usize; 3],
}

impl VoxChange {
    /// The edit that puts `new_vox` at the interior cell `index`.
    pub fn new(index: [usize; 3], new_vox: Voxel) -> (r: Self)
        ensures
            r.index == index,
            r.new_vox == new_vox,
    {
        Self { new_vox, index }
    }

    /// Whether the edit names an interior cell of a chunk.
    pub open spec fn in_chunk(&self) -> bool {
        self.index[0] < CHSIZE && self.index[1] < CHSIZE && self.index[2] < CHSIZE
    }
}

/// Where the voxels of a chunk come from when the chunk is first asked for.
pub trait ProceduralGenerator {
    /// The voxel that the interior cell `index` of the chunk at `pos` starts with.
    fn voxel(&self, pos: &ChunkPosition, index: [usize; 3]) -> Voxel;
}

/// The edits that wait for one chunk, oldest first.
struct PendingEdits {
    pos: ChunkPosition,
    edits: Vec<VoxChange>,
}

/// The key under which the chunk at `pos` is kept: its three coordinates.
pub open spec fn spec_key(pos: ChunkPosition) -> (i32, i32, i32) {
    (pos.pos.x, pos.pos.y, pos.pos.z)
}

fn key(pos: &ChunkPosition) -> (k: (i32, i32, i32))
    ensures
        k == spec_key(*pos),
{
    (pos.pos.x, pos.pos.y, pos.pos.z)
}

/// The last voxel that `edits` gives to the cell `(x, y, z)`, if any of them
/// names the cell.
pub open spec fn last_edit(edits: Seq<VoxChange>, x: int, y: int, z: int) -> Option<Voxel>
    decreases edits.len(),
{
    if edits.len() == 0 {
        None
    } else {
        let e = edits.last();
        if e.index[0] == x && e.index[1] == y && e.index[2] == z {
            Some(e.new_vox)
        } else {
            last_edit(edits.drop_last(), x, y, z)
        }
    }
}

/// The faces of a chunk on which a cell lies that one of `edits` names.
pub open spec fn touched(edits: Seq<VoxChange>) -> Directions
    decreases edits.len(),
{
    if edits.len() == 0 {
        Directions::spec_empty()
    } else {
        touched(edits.drop_last()).spec_union(SChunk::border_of(edits.last().index))
    }
}

/// The position one chunk further in the direction of the face `dir`, if
/// its coordinates are within the range of the lattice.
pub open spec fn spec_neighbor(pos: ChunkPosition, dir: Directions) -> Option<ChunkPosition> {
    let o = dir.offset();
    if i32::MIN <= pos.pos.x + o.0 <= i32::MAX && i32::MIN <= pos.pos.y + o.1 <= i32::MAX
        && i32::MIN <= pos.pos.z + o.2 <= i32::MAX {
        Some(
            ChunkPosition {
                pos: Vec3i {
                    x: (pos.pos.x + o.0) as i32,
                    y: (pos.pos.y + o.1) as i32,
                    z: (pos.pos.z + o.2) as i32,
                },
            },
        )
    } else {
        None
    }
}

/// The position one chunk further in the direction `dir`, if there is one.
#[verifier::when_used_as_spec(spec_neighbor)]
pub fn neighbor(pos: ChunkPosition, dir: Directions) -> (r: Option<ChunkPosition>)
    ensures
        r == spec_neighbor(pos, dir),
{
    let step = dir.to_vec();
    match (
        pos.pos.x.checked_add(step.x),
        pos.pos.y.checked_add(step.y),
        pos.pos.z.checked_add(step.z),
    ) {
        (Some(x), Some(y), Some(z)) => Some(ChunkPosition { pos: Vec3i { x, y, z } }),
        _ => None,
    }
}

/// The chunk in which the place `pos` of the voxel lattice lies: each
/// coordinate divided by the edge length and rounded down.
pub open spec fn spec_chunk_of(pos: Vec3i) -> ChunkPosition {
    ChunkPosition {
        pos: Vec3i {
            x: (pos.x as int / CHSIZE as int) as i32,
            y: (pos.y as int / CHSIZE as int) as i32,
            z: (pos.z as int / CHSIZE as int) as i32,
        },
    }
}

/// The index, within its chunk, of the cell at the place `pos` of the voxel
/// lattice: what is left of each coordinate when it is divided by the edge length.
pub open spec fn spec_index_of(pos: Vec3i) -> [usize; 3] {
    [
        (pos.x as int % CHSIZE as int) as usize,
        (pos.y as int % CHSIZE as int) as usize,
        (pos.z as int % CHSIZE as int) as usize,
    ]
}

/// Divides a coordinate of the voxel lattice by the edge length of a chunk:
/// the quotient rounded down, and the remainder, which is never negative.
fn split(c: i32) -> (r: (i32, usize))
    ensures
        r.0 == c as int / CHSIZE as int,
        r.1 == c as int % CHSIZE as int,
        r.0 * CHSIZE + r.1 == c,
        r.1 < CHSIZE,
{
    if c >= 0 {
        (c / CHSIZEI, (c % CHSIZEI) as usize)
    } else {
        let below: i32 = -1 - c;
        let q: i32 = -1 - below / CHSIZEI;
        (q, (CHSIZEI - 1 - below % CHSIZEI) as usize)
    }
}

/// Writes `edits` into the interior of `chunk`, oldest first, and says which
/// faces of the chunk the edited cells lie on.
pub fn apply_changes(chunk: &mut SChunk, edits: &Vec<VoxChange>) -> (faces: Directions)
    requires
        forall|i: int| 0 <= i < edits@.len() ==> (#[trigger] edits@[i]).in_chunk(),
    ensures
        faces == touched(edits@),
        forall|x: int, y: int, z: int|
            SChunk::in_range(x, y, z) ==> #[trigger] final(chunk).voxel(x, y, z) == match last_edit(
                edits@,
                x,
                y,
                z,
            ) {
                Some(v) => v,
                None => old(chunk).voxel(x, y, z),
            },
{
    let mut faces = Directions::empty();
    let mut i: usize = 0;
    while i < edits.len()
        invariant
            0 <= i <= edits@.len(),
            forall|j: int| 0 <= j < edits@.len() ==> (#[trigger] edits@[j]).in_chunk(),
            faces == touched(edits@.take(i as int)),
            forall|x: int, y: int, z: int|
                SChunk::in_range(x, y, z) ==> #[trigger] chunk.voxel(x, y, z) == match last_edit(
                    edits@.take(i as int),
                    x,
                    y,
                    z,
                ) {
                    Some(v) => v,
                    None => old(chunk).voxel(x, y, z),
                },
        decreases edits@.len() - i,
    {
        let change = edits[i];
        proof {
            assert(edits@.take(i + 1).drop_last() == edits@.take(i as int));
        }
        chunk.data_mut().set(change.index, change.new_vox);
        if let Some(border) = SChunk::is_on_border(&change.index) {
            faces = faces.union(border);
        }
        i = i + 1;
    }
    proof {
        assert(edits@.take(edits@.len() as int) == edits@);
    }
    faces
}

/// Whether `v` is what a chunk that is made for `pos` holds at `(x, y, z)`: in
/// the interior a voxel that the generator gives for that cell, in the halo the
/// empty voxel.
pub open spec fn fresh_cell<G: ProceduralGenerator>(
    generator: G,
    pos: ChunkPosition,
    x: int,
    y: int,
    z: int,
    v: Voxel,
) -> bool {
    if SChunk::is_interior(x, y, z) {
        call_ensures(G::voxel, (&generator, &pos, [x as usize, y as usize, z as usize]), v)
    } else {
        v == Voxel::empty()
    }
}

/// Whether `chunk` is a chunk as it is made for `pos`: the interior as the
/// generator gives it, cell by cell, within an empty halo.
pub open spec fn generated<G: ProceduralGenerator>(
    generator: G,
    pos: ChunkPosition,
    chunk: SChunk,
) -> bool {
    forall|x: int, y: int, z: int|
        SChunk::in_range(x, y, z) ==> fresh_cell(
            generator,
            pos,
            x,
            y,
            z,
            #[trigger] chunk.voxel(x, y, z),
        )
}

/// A new chunk for `pos`: the generator is asked for each interior cell in
/// turn, x counting slowest and z fastest.
pub fn generate<G: ProceduralGenerator>(generator: &G, pos: &ChunkPosition) -> (r: SChunk)
    ensures
        generated(*generator, *pos, r),
{
    let mut chunk = SChunk::new();
    let mut x: usize = 0;
    while x < CHSIZE
        invariant
            0 <= x <= CHSIZE,
            forall|a: int, b: int, c: int|
                SChunk::in_range(a, b, c) ==> if SChunk::is_interior(a, b, c) && a < x {
                    fresh_cell(*generator, *pos, a, b, c, #[trigger] chunk.voxel(a, b, c))
                } else {
                    chunk.voxel(a, b, c) == Voxel::empty()
                },
        decreases CHSIZE - x,
    {
        let mut y: usize = 0;
        while y < CHSIZE
            invariant
                x < CHSIZE,
                0 <= y <= CHSIZE,
                forall|a: int, b: int, c: int|
                    SChunk::in_range(a, b, c) ==> if SChunk::is_interior(a, b, c) && (a < x || (a
                        == x && b < y)) {
                        fresh_cell(*generator, *pos, a, b, c, #[trigger] chunk.voxel(a, b, c))
                    } else {
                        chunk.voxel(a, b, c) == Voxel::empty()
                    },
            decreases CHSIZE - y,
        {
            let mut z: usize = 0;
            while z < CHSIZE
                invariant
                    x < CHSIZE,
                    y < CHSIZE,
                    0 <= z <= CHSIZE,
                    forall|a: int, b: int, c: int|
                        SChunk::in_range(a, b, c) ==> if SChunk::is_interior(a, b, c) && (a < x || (
                        a == x && (b < y || (b == y && c < z)))) {
                            fresh_cell(*generator, *pos, a, b, c, #[trigger] chunk.voxel(a, b, c))
                        } else {
                            chunk.voxel(a, b, c) == Voxel::empty()
                        },
                decreases CHSIZE - z,
            {
                let index = [x, y, z];
                let v = generator.voxel(pos, index);
                chunk.data_mut().set(index, v);
                z = z + 1;
            }
            y = y + 1;
        }
        x = x + 1;
    }
    chunk
}

/// A sparse world of chunks. A chunk comes into being, filled by the generator,
/// when its position is first asked for. Edits are queued by chunk and written
/// by `apply_voxel_changes`, which also renews the halo of each chunk that
/// touches an edited face.
///
/// The chunks are kept in a concurrent map, the queues in the order in which
/// their chunks were first edited since the last commit, the marks of the
/// chunks that are to be meshed again in a concurrent set.
pub struct VoxelWorld<G: ProceduralGenerator> {
    chunks: ChunkMap,
    chunk_changes: Vec<PendingEdits>,
    dirty: PositionSet,
    procedural: G,
}

/// Whether no two of `entries` are for the same chunk, none of them is without
/// edits, and every edit names an interior cell.
spec fn queues_wf(entries: Seq<PendingEdits>) -> bool {
    &&& forall|i: int, j: int|
        0 <= i < j < entries.len() ==> (#[trigger] entries[i]).pos != (#[trigger] entries[j]).pos
    &&& forall|i: int| 0 <= i < entries.len() ==> (#[trigger] entries[i]).edits@.len() > 0
    &&& forall|i: int, k: int|
        0 <= i < entries.len() && 0 <= k < entries[i].edits@.len()
            ==> (#[trigger] entries[i].edits@[k]).in_chunk()
}

/// Whether one of `entries` is for the chunk at `pos`.
spec fn queued(entries: Seq<PendingEdits>, pos: ChunkPosition) -> bool {
    exists|i: int| 0 <= i < entries.len() && (#[trigger] entries[i]).pos == pos
}

/// The place among `entries` of the one for the chunk at `pos`.
spec fn queue_index(entries: Seq<PendingEdits>, pos: ChunkPosition) -> int {
    choose|i: int| 0 <= i < entries.len() && (#[trigger] entries[i]).pos == pos
}

/// The edits that `entries` hold for the chunk at `pos`, oldest first.
spec fn queue_of(entries: Seq<PendingEdits>, pos: ChunkPosition) -> Seq<VoxChange> {
    if queued(entries, pos) {
        entries[queue_index(entries, pos)].edits@
    } else {
        Seq::empty()
    }
}

proof fn lemma_queue_at(entries: Seq<PendingEdits>, i: int)
    requires
        queues_wf(entries),
        0 <= i < entries.len(),
    ensures
        queued(entries, entries[i].pos),
        queue_index(entries, entries[i].pos) == i,
        queue_of(entries, entries[i].pos) == entries[i].edits@,
{
    let j = queue_index(entries, entries[i].pos);
    if j < i {
    } else if j > i {
    }
}

proof fn lemma_queue_kept(a: Seq<PendingEdits>, b: Seq<PendingEdits>, pos: ChunkPosition)
    requires
        queues_wf(a),
        queues_wf(b),
        a.len() <= b.len(),
        forall|j: int| 0 <= j < a.len() ==> (#[trigger] a[j]).pos == b[j].pos,
        forall|j: int|
            0 <= j < a.len() && (#[trigger] a[j]).pos == pos ==> a[j].edits@ == b[j].edits@,
        forall|j: int| a.len() <= j < b.len() ==> (#[trigger] b[j]).pos != pos,
    ensures
        queue_of(a, pos) == queue_of(b, pos),
{
    if queued(a, pos) {
        let j = queue_index(a, pos);
        lemma_queue_at(a, j);
        lemma_queue_at(b, j);
    } else if queued(b, pos) {
        let j = queue_index(b, pos);
        assert(a[j].pos == pos);
    }
}

/// The side of the halo on which the cell `(x, y, z)` of a chunk lies: a face
/// for a cell of a halo face, two or three directions for a cell of the
/// halo's edges and corners, nothing for an interior cell.
pub open spec fn halo_side(x: int, y: int, z: int) -> Directions {
    Directions {
        up: y == CHSIZE,
        down: y == -1,
        north: z == -1,
        south: z == CHSIZE,
        east: x == CHSIZE,
        west: x == -1,
    }
}

/// The place of a face in `Directions::face_seq`.
spec fn rank(dir: Directions) -> int {
    if dir.up {
        0
    } else if dir.down {
        1
    } else if dir.north {
        2
    } else if dir.south {
        3
    } else if dir.east {
        4
    } else {
        5
    }
}

/// Whether the halo face `side` of the chunk at `pos` has been renewed once the
/// borders of the first `j` of `entries` have been spread, and of entry `j` the
/// first `k` faces.
#[verifier::opaque]
spec fn spread_done(
    entries: Seq<PendingEdits>,
    j: int,
    k: int,
    pos: ChunkPosition,
    side: Directions,
) -> bool {
    &&& side.spec_is_face()
    &&& spec_neighbor(pos, side) matches Some(next)
    &&& queued(entries, next)
    &&& touched(queue_of(entries, next)).spec_contains(side.spec_invert())
    &&& (queue_index(entries, next) < j || (queue_index(entries, next) == j && rank(
        side.spec_invert(),
    ) < k))
}

proof fn lemma_spread_step(
    entries: Seq<PendingEdits>,
    j: int,
    k: int,
    pos: ChunkPosition,
    side: Directions,
)
    requires
        queues_wf(entries),
        0 <= j < entries.len(),
        0 <= k < 6,
    ensures
        spread_done(entries, j, k + 1, pos, side) <==> (spread_done(entries, j, k, pos, side) || (
        side.spec_is_face() && side.spec_invert() == Directions::face_seq()[k] && spec_neighbor(
            pos,
            side,
        ) == Some(entries[j].pos) && touched(entries[j].edits@).spec_contains(
            Directions::face_seq()[k],
        ))),
        k == 5 ==> (spread_done(entries, j, 6, pos, side) <==> spread_done(
            entries,
            j + 1,
            0,
            pos,
            side,
        )),
{
    reveal(spread_done);
}

/// An edit that no later edit of the same cell follows decides what
/// `last_edit` gives for its cell.
pub proof fn lemma_last_edit(edits: Seq<VoxChange>, i: int)
    requires
        0 <= i < edits.len(),
        forall|j: int| i < j < edits.len() ==> (#[trigger] edits[j]).index@ != edits[i].index@,
    ensures
        last_edit(
            edits,
            edits[i].index[0] as int,
            edits[i].index[1] as int,
            edits[i].index[2] as int,
        ) == Some(edits[i].new_vox),
    decreases edits.len(),
{
    if i < edits.len() - 1 {
        let e = edits.last();
        if e.index[0] == edits[i].index[0] && e.index[1] == edits[i].index[1] && e.index[2]
            == edits[i].index[2] {
            assert(e.index@ =~= edits[i].index@);
        }
        lemma_last_edit(edits.drop_last(), i);
    }
}

/// No edit of a cell, no voxel for it.
pub proof fn lemma_last_edit_none(edits: Seq<VoxChange>, x: int, y: int, z: int)
    requires
        forall|j: int|
            0 <= j < edits.len() ==> !((#[trigger] edits[j]).index[0] == x && edits[j].index[1] == y
                && edits[j].index[2] == z),
    ensures
        last_edit(edits, x, y, z) is None,
    decreases edits.len(),
{
    if edits.len() > 0 {
        lemma_last_edit_none(edits.drop_last(), x, y, z);
    }
}

/// An edit of a cell on a face touches that face.
pub proof fn lemma_touched(edits: Seq<VoxChange>, i: int, side: Directions)
    requires
        0 <= i < edits.len(),
        SChunk::border_of(edits[i].index).spec_contains(side),
    ensures
        touched(edits).spec_contains(side),
    decreases edits.len(),
{
    if i < edits.len() - 1 {
        lemma_touched(edits.drop_last(), i, side);
    }
}

impl<G: ProceduralGenerator> VoxelWorld<G> {
    /// Whether the world holds what its functions expect of it. `new`
    /// establishes this and every function keeps it.
    pub closed spec fn wf(&self) -> bool {
        queues_wf(self.chunk_changes@)
    }

    /// The chunk at `pos`, if there is one.
    pub closed spec fn chunk_at(&self, pos: ChunkPosition) -> Option<SChunk> {
        if map_chunks(self.chunks).contains_key(spec_key(pos)) {
            Some(map_chunks(self.chunks)[spec_key(pos)])
        } else {
            None
        }
    }

    /// Whether there is a chunk at `pos`.
    pub open spec fn has_chunk(&self, pos: ChunkPosition) -> bool {
        self.chunk_at(pos) is Some
    }

    /// The chunk at `pos`.
    pub open spec fn chunk(&self, pos: ChunkPosition) -> SChunk {
        self.chunk_at(pos)->0
    }

    /// The voxel at `(x, y, z)` of the chunk at `pos`, interior or halo.
    pub open spec fn voxel(&self, pos: ChunkPosition, x: int, y: int, z: int) -> Voxel {
        self.chunk(pos).voxel(x, y, z)
    }

    /// The edits that wait for the chunk at `pos`, oldest first.
    pub closed spec fn pending(&self, pos: ChunkPosition) -> Seq<VoxChange> {
        queue_of(self.chunk_changes@, pos)
    }

    /// The generator that fills new chunks.
    pub closed spec fn generator(&self) -> G {
        self.procedural
    }

    /// Whether the chunk at `pos` is marked as one whose mesh is out of date.
    pub closed spec fn marked_dirty(&self, pos: ChunkPosition) -> bool {
        set_positions(self.dirty).contains(spec_key(pos))
    }

    /// Whether the same chunks are marked in two worlds.
    pub open spec fn same_dirty(pre: Self, post: Self) -> bool {
        forall|p: ChunkPosition| #[trigger] post.marked_dirty(p) == pre.marked_dirty(p)
    }

    /// Whether two worlds hold the same chunks.
    pub open spec fn same_chunks(pre: Self, post: Self) -> bool {
        forall|p: ChunkPosition| #[trigger] post.chunk_at(p) == pre.chunk_at(p)
    }

    /// Whether the same edits wait in two worlds.
    pub open spec fn same_pending(pre: Self, post: Self) -> bool {
        forall|p: ChunkPosition| #[trigger] post.pending(p) == pre.pending(p)
    }

    /// What asking for the chunk at `pos` does to a world: where the chunk is
    /// there already nothing changes. Where it is not, it is made, as
    /// `generated` says. No other chunk and no waiting edit changes.
    pub open spec fn materialized(pre: Self, post: Self, pos: ChunkPosition) -> bool {
        &&& post.generator() == pre.generator()
        &&& Self::same_dirty(pre, post)
        &&& Self::same_pending(pre, post)
        &&& post.has_chunk(pos)
        &&& pre.has_chunk(pos) ==> Self::same_chunks(pre, post)
        &&& !pre.has_chunk(pos) ==> generated(post.generator(), pos, post.chunk(pos))
        &&& forall|p: ChunkPosition| p != pos ==> #[trigger] post.chunk_at(p) == pre.chunk_at(p)
    }

    /// What queueing an edit does to a world: the edit is the last of those
    /// that wait for its chunk. No chunk changes, nor what waits for another chunk.
    pub open spec fn edit_queued(
        pre: Self,
        post: Self,
        pos: ChunkPosition,
        change: VoxChange,
    ) -> bool {
        &&& post.generator() == pre.generator()
        &&& Self::same_dirty(pre, post)
        &&& Self::same_chunks(pre, post)
        &&& post.pending(pos) == pre.pending(pos).push(change)
        &&& forall|p: ChunkPosition| p != pos ==> #[trigger] post.pending(p) == pre.pending(p)
    }

    /// A world without chunks and without waiting edits.
    pub fn new(procedural: G) -> (r: Self)
        ensures
            r.wf(),
            r.generator() == procedural,
            forall|p: ChunkPosition| !r.has_chunk(p),
            forall|p: ChunkPosition| !r.marked_dirty(p),
            forall|p: ChunkPosition| #[trigger] r.pending(p) == Seq::<VoxChange>::empty(),
    {
        VoxelWorld {
            chunks: chunk_map_new(),
            chunk_changes: Vec::new(),
            dirty: position_set_new(),
            procedural,
        }
    }

    fn holds(&self, pos: &ChunkPosition) -> (r: bool)
        ensures
            r == self.has_chunk(*pos),
    {
        chunk_map_get(&self.chunks, key(pos)).is_some()
    }

    /// A handle to the chunk at `pos`.
    fn chunk_handle(&self, pos: &ChunkPosition) -> (r: Arc<SChunk>)
        requires
            self.has_chunk(*pos),
        ensures
            *r == self.chunk(*pos),
    {
        match chunk_map_get(&self.chunks, key(pos)) {
            Some(c) => c,
            None => vstd::pervasive::unreached(),
        }
    }

    /// A copy of the chunk at `pos`, to be changed and put back.
    fn copy_chunk(&self, pos: &ChunkPosition) -> (r: SChunk)
        requires
            self.has_chunk(*pos),
        ensures
            forall|x: int, y: int, z: int|
                #[trigger] r.voxel(x, y, z) == self.voxel(*pos, x, y, z),
    {
        let handle = self.chunk_handle(pos);
        (*handle).clone()
    }

    /// Puts `chunk` in the place of the chunk at `pos`.
    fn put_chunk(&mut self, pos: &ChunkPosition, chunk: SChunk)
        ensures
            final(self).has_chunk(*pos),
            final(self).chunk(*pos) == chunk,
            final(self).chunk_changes == old(self).chunk_changes,
            final(self).procedural == old(self).procedural,
            final(self).dirty == old(self).dirty,
            forall|p: ChunkPosition|
                p != *pos ==> #[trigger] final(self).chunk_at(p) == old(self).chunk_at(p),
    {
        chunk_map_insert(&mut self.chunks, key(pos), Arc::new(chunk));
    }

    /// Makes the chunk at `pos` if it is not there.
    fn materialize(&mut self, pos: &ChunkPosition)
        ensures
            Self::materialized(*old(self), *final(self), *pos),
            final(self).chunk_changes == old(self).chunk_changes,
            final(self).dirty == old(self).dirty,
    {
        if !self.holds(pos) {
            let c = generate(&self.procedural, pos);
            chunk_map_try_insert(&mut self.chunks, key(pos), Arc::new(c));
        }
    }

    /// A handle to the chunk at `pos`. The chunk is made first, by the
    /// generator, if this is the first time that it is asked for; asking again
    /// gives a handle to the same chunk and leaves the world as it is.
    pub fn chunk_at_or_create(&mut self, pos: &ChunkPosition) -> (r: Arc<SChunk>)
        requires
            old(self).wf(),
        ensures
            final(self).wf(),
            Self::materialized(*old(self), *final(self), *pos),
            *r == final(self).chunk(*pos),
    {
        match chunk_map_get(&self.chunks, key(pos)) {
            Some(c) => c,
            None => {
                let c = generate(&self.procedural, pos);
                chunk_map_try_insert(&mut self.chunks, key(pos), Arc::new(c))
            },
        }
    }

    /// The interior voxel at `ind` of the chunk at `chunk`, which is made first
    /// if it is not there. Edits that wait for a commit do not show.
    pub fn voxel_at(&mut self, chunk: &ChunkPosition, ind: &[usize; 3]) -> (v: Voxel)
        requires
            old(self).wf(),
            ind[0] < CHSIZE && ind[1] < CHSIZE && ind[2] < CHSIZE,
        ensures
            final(self).wf(),
            Self::materialized(*old(self), *final(self), *chunk),
            v == final(self).voxel(*chunk, ind[0] as int, ind[1] as int, ind[2] as int),
    {
        let c = self.chunk_at_or_create(chunk);
        c.data().get(*ind)
    }

    /// The interior voxel at the place `pos` of the voxel lattice.
    pub fn voxel_at_pos(&mut self, pos: &Vec3i) -> (v: Voxel)
        requires
            old(self).wf(),
        ensures
            final(self).wf(),
            Self::materialized(*old(self), *final(self), spec_chunk_of(*pos)),
            v == final(self).voxel(
                spec_chunk_of(*pos),
                pos.x as int % CHSIZE as int,
                pos.y as int % CHSIZE as int,
                pos.z as int % CHSIZE as int,
            ),
    {
        let (ch, ind) = Self::to_ch_pos_index(pos);
        self.voxel_at(&ch, &ind)
    }

    /// Queues the edit that puts `new_vox` at the place `pos` of the voxel lattice.
    pub fn set_voxel_at_pos(&mut self, pos: &Vec3i, new_vox: Voxel)
        requires
            old(self).wf(),
        ensures
            final(self).wf(),
            Self::edit_queued(
                *old(self),
                *final(self),
                spec_chunk_of(*pos),
                VoxChange { new_vox, index: spec_index_of(*pos) },
            ),
    {
        let (ch, ind) = Self::to_ch_pos_index(pos);
        self.set_voxel_at(&ch, &ind, new_vox);
    }

    /// Queues the edit that puts `new_vox` at the interior cell `ind` of the
    /// chunk at `chunk`. Nothing is written before the next commit.
    pub fn set_voxel_at(&mut self, chunk: &ChunkPosition, ind: &[usize; 3], new_vox: Voxel)
        requires
            old(self).wf(),
            ind[0] < CHSIZE && ind[1] < CHSIZE && ind[2] < CHSIZE,
        ensures
            final(self).wf(),
            Self::edit_queued(
                *old(self),
                *final(self),
                *chunk,
                VoxChange { new_vox, index: *ind },
            ),
    {
        let change = VoxChange::new(*ind, new_vox);
        let ghost before = self.chunk_changes@;
        let mut i: usize = 0;
        while i < self.chunk_changes.len() && self.chunk_changes[i].pos != *chunk
            invariant
                0 <= i <= self.chunk_changes@.len(),
                self.chunk_changes@ == before,
                forall|j: int| 0 <= j < i ==> (#[trigger] before[j]).pos != *chunk,
            decreases self.chunk_changes@.len() - i,
        {
            i = i + 1;
        }
        if i < self.chunk_changes.len() {
            self.chunk_changes[i].edits.push(change);
            proof {
                let after = self.chunk_changes@;
                assert forall|p: ChunkPosition| p != *chunk implies #[trigger] self.pending(p)
                    == old(self).pending(p) by {
                    lemma_queue_kept(before, after, p);
                }
            }
        } else {
            let mut edits: Vec<VoxChange> = Vec::new();
            edits.push(change);
            self.chunk_changes.push(PendingEdits { pos: *chunk, edits });
            proof {
                let after = self.chunk_changes@;
                lemma_queue_at(after, i as int);
                assert forall|p: ChunkPosition| p != *chunk implies #[trigger] self.pending(p)
                    == old(self).pending(p) by {
                    lemma_queue_kept(before, after, p);
                }
            }
        }
    }

    /// Marks the chunk at `pos` as one whose mesh is out of date.
    pub fn mark_dirty(&mut self, pos: &ChunkPosition)
        requires
            old(self).wf(),
        ensures
            final(self).wf(),
            final(self).generator() == old(self).generator(),
            Self::same_chunks(*old(self), *final(self)),
            Self::same_pending(*old(self), *final(self)),
            forall|p: ChunkPosition| #[trigger]
                final(self).marked_dirty(p) == (p == *pos || old(self).marked_dirty(p)),
    {
        position_set_insert(&mut self.dirty, key(pos));
    }

    /// Whether the chunk at `pos` is marked as one whose mesh is out of date.
    pub fn is_dirty(&self, pos: &ChunkPosition) -> (r: bool)
        ensures
            r == self.marked_dirty(*pos),
    {
        position_set_contains(&self.dirty, key(pos))
    }

    /// Takes the mark off the chunk at `pos` and says whether it was marked.
    pub fn clear_dirty(&mut self, pos: &ChunkPosition) -> (r: bool)
        requires
            old(self).wf(),
        ensures
            final(self).wf(),
            r == old(self).marked_dirty(*pos),
            final(self).generator() == old(self).generator(),
            Self::same_chunks(*old(self), *final(self)),
            Self::same_pending(*old(self), *final(self)),
            forall|p: ChunkPosition| #[trigger]
                final(self).marked_dirty(p) == (p != *pos && old(self).marked_dirty(p)),
    {
        position_set_remove(&mut self.dirty, key(pos))
    }

    /// The chunk in which the place `pos` of the voxel lattice lies, and the
    /// index of its cell within that chunk: each coordinate divided by the edge
    /// length, rounded down, and what is left over.
    pub fn to_ch_pos_index(pos: &Vec3i) -> (r: (ChunkPosition, [usize; 3]))
        ensures
            r.0 == spec_chunk_of(*pos),
            r.1 == spec_index_of(*pos),
            r.1[0] < CHSIZE && r.1[1] < CHSIZE && r.1[2] < CHSIZE,
            r.0.pos.x * CHSIZE + r.1[0] == pos.x,
            r.0.pos.y * CHSIZE + r.1[1] == pos.y,
            r.0.pos.z * CHSIZE + r.1[2] == pos.z,
    {
        let (cx, ix) = split(pos.x);
        let (cy, iy) = split(pos.y);
        let (cz, iz) = split(pos.z);
        let index = [ix, iy, iz];
        (ChunkPosition { pos: Vec3i { x: cx, y: cy, z: cz } }, index)
    }

    /// What a commit of the world `pre` leaves in the cell `(x, y, z)` of the
    /// chunk at `pos` when it writes `edits` into it and does not renew the cell
    /// from a neighbour. `now` is the chunk afterwards. The cell holds the last
    /// voxel that the edits give to it; without one, what it held before the
    /// commit; and where the chunk was not there before the commit, what a cell
    /// of a chunk that is made for `pos` holds.
    pub open spec fn edited(
        pre: Self,
        pos: ChunkPosition,
        now: SChunk,
        edits: Seq<VoxChange>,
        x: int,
        y: int,
        z: int,
    ) -> bool {
        match last_edit(edits, x, y, z) {
            Some(e) => now.voxel(x, y, z) == e,
            None => match pre.chunk_at(pos) {
                Some(b) => now.voxel(x, y, z) == b.voxel(x, y, z),
                None => fresh_cell(pre.generator(), pos, x, y, z, now.voxel(x, y, z)),
            },
        }
    }

    /// Whether a commit renews the halo face `side` of the chunk at `pos`: the
    /// chunk has a neighbour on that side, and edits wait for that neighbour
    /// which name a cell on the face that it shares with the chunk.
    pub open spec fn renews(&self, pos: ChunkPosition, side: Directions) -> bool {
        &&& side.spec_is_face()
        &&& spec_neighbor(pos, side) matches Some(next)
        &&& touched(self.pending(next)).spec_contains(side.spec_invert())
    }

    /// What a commit leaves in the cell `(x, y, z)` of the chunk at `pos`. A
    /// cell of a halo face that the commit renews holds what the cell in the
    /// same place holds in the neighbour on that side, after the commit. Every
    /// other cell is as `edited` says.
    pub open spec fn cell_committed(
        pre: Self,
        post: Self,
        pos: ChunkPosition,
        x: int,
        y: int,
        z: int,
    ) -> bool {
        let side = halo_side(x, y, z);
        if pre.renews(pos, side) {
            let o = side.offset();
            post.voxel(pos, x, y, z) == post.voxel(
                spec_neighbor(pos, side)->0,
                SChunk::across(o.0, x),
                SChunk::across(o.1, y),
                SChunk::across(o.2, z),
            )
        } else {
            Self::edited(pre, pos, post.chunk(pos), pre.pending(pos), x, y, z)
        }
    }

    /// What a commit does to a world. No edit waits any more. There is a chunk
    /// wherever there was one, wherever edits waited for one, and wherever the
    /// commit renews a halo face. Every cell of every chunk is as
    /// `cell_committed` says.
    pub open spec fn committed(pre: Self, post: Self) -> bool {
        &&& post.generator() == pre.generator()
        &&& Self::same_dirty(pre, post)
        &&& forall|p: ChunkPosition| #[trigger] post.pending(p) == Seq::<VoxChange>::empty()
        &&& forall|p: ChunkPosition| #[trigger]
            post.has_chunk(p) <==> (pre.has_chunk(p) || pre.pending(p).len() > 0 || exists|
                side: Directions,
            |
                pre.renews(p, side))
        &&& forall|p: ChunkPosition, x: int, y: int, z: int|
            post.has_chunk(p) && SChunk::in_range(x, y, z) ==> #[trigger] Self::cell_committed(
                pre,
                post,
                p,
                x,
                y,
                z,
            )
    }

    /// The state of the chunk at `pos` once the edits of the first `i` of
    /// `entries` have been written.
    spec fn written_at(
        pre: Self,
        now: Self,
        entries: Seq<PendingEdits>,
        i: int,
        pos: ChunkPosition,
    ) -> bool {
        if queued(entries, pos) && queue_index(entries, pos) < i {
            &&& now.has_chunk(pos)
            &&& forall|x: int, y: int, z: int|
                SChunk::in_range(x, y, z) ==> #[trigger] Self::edited(
                    pre,
                    pos,
                    now.chunk(pos),
                    queue_of(entries, pos),
                    x,
                    y,
                    z,
                )
        } else {
            now.chunk_at(pos) == pre.chunk_at(pos)
        }
    }

    spec fn written(pre: Self, now: Self, entries: Seq<PendingEdits>, i: int) -> bool {
        forall|p: ChunkPosition| #[trigger] Self::written_at(pre, now, entries, i, p)
    }

    /// Writes the edits of each of `changes` into its chunk, which is made
    /// first if it is not there, and lists the faces that each touches.
    fn write_edits(&mut self, changes: &Vec<PendingEdits>) -> (borders: Vec<Directions>)
        requires
            queues_wf(changes@),
        ensures
            final(self).chunk_changes == old(self).chunk_changes,
            final(self).procedural == old(self).procedural,
            final(self).dirty == old(self).dirty,
            Self::written(*old(self), *final(self), changes@, changes@.len() as int),
            borders@.len() == changes@.len(),
            forall|j: int|
                0 <= j < changes@.len() ==> #[trigger] borders@[j] == touched(changes@[j].edits@),
    {
        let ghost entries = changes@;
        let mut borders: Vec<Directions> = Vec::new();
        let mut i: usize = 0;
        while i < changes.len()
            invariant
                entries == changes@,
                queues_wf(entries),
                0 <= i <= entries.len(),
                self.chunk_changes == old(self).chunk_changes,
                self.procedural == old(self).procedural,
                self.dirty == old(self).dirty,
                Self::written(*old(self), *self, entries, i as int),
                borders@.len() == i,
                forall|j: int| 0 <= j < i ==> #[trigger] borders@[j] == touched(entries[j].edits@),
            decreases entries.len() - i,
        {
            let pos = changes[i].pos;
            let ghost before = *self;
            self.materialize(&pos);
            let mut chunk = self.copy_chunk(&pos);
            let ghost base = chunk;
            let faces = apply_changes(&mut chunk, &changes[i].edits);
            self.put_chunk(&pos, chunk);
            borders.push(faces);
            proof {
                assert forall|p: ChunkPosition| #[trigger]
                    Self::written_at(*old(self), *self, entries, i + 1, p) by {
                    assert(Self::written_at(*old(self), before, entries, i as int, p));
                    if p == pos {
                        assert forall|x: int, y: int, z: int|
                            SChunk::in_range(x, y, z) implies #[trigger] Self::edited(
                            *old(self),
                            pos,
                            self.chunk(pos),
                            queue_of(entries, pos),
                            x,
                            y,
                            z,
                        ) by {
                            assert(chunk.voxel(x, y, z) == match last_edit(
                                entries[i as int].edits@,
                                x,
                                y,
                                z,
                            ) {
                                Some(v) => v,
                                None => base.voxel(x, y, z),
                            });
                            if !old(self).has_chunk(pos) {
                                assert(fresh_cell(
                                    old(self).generator(),
                                    pos,
                                    x,
                                    y,
                                    z,
                                    base.voxel(x, y, z),
                                ));
                            }
                        }
                    } else {
                        assert((queued(entries, p) && queue_index(entries, p) < i + 1) == (queued(
                            entries,
                            p,
                        ) && queue_index(entries, p) < i));
                        if queued(entries, p) && queue_index(entries, p) < i {
                            assert forall|x: int, y: int, z: int|
                                SChunk::in_range(x, y, z) implies #[trigger] Self::edited(
                                *old(self),
                                p,
                                self.chunk(p),
                                queue_of(entries, p),
                                x,
                                y,
                                z,
                            ) by {
                                assert(Self::edited(
                                    *old(self),
                                    p,
                                    before.chunk(p),
                                    queue_of(entries, p),
                                    x,
                                    y,
                                    z,
                                ));
                            }
                        }
                    }
                }
            }
            i = i + 1;
        }
        borders
    }

    /// What the cell `(x, y, z)` of the chunk at `pos` holds while the borders
    /// are spread.
    spec fn spread_cell(
        pre: Self,
        now: Self,
        entries: Seq<PendingEdits>,
        j: int,
        k: int,
        pos: ChunkPosition,
        x: int,
        y: int,
        z: int,
    ) -> bool {
        let side = halo_side(x, y, z);
        if spread_done(entries, j, k, pos, side) {
            let o = side.offset();
            now.voxel(pos, x, y, z) == now.voxel(
                spec_neighbor(pos, side)->0,
                SChunk::across(o.0, x),
                SChunk::across(o.1, y),
                SChunk::across(o.2, z),
            )
        } else {
            Self::edited(pre, pos, now.chunk(pos), queue_of(entries, pos), x, y, z)
        }
    }

    /// The state of the chunk at `pos` while the borders are spread. `mid` is
    /// the world in which all edits are written and no border is spread yet.
    spec fn spread_at(
        pre: Self,
        mid: Self,
        now: Self,
        entries: Seq<PendingEdits>,
        j: int,
        k: int,
        pos: ChunkPosition,
    ) -> bool {
        &&& now.has_chunk(pos) <==> (mid.has_chunk(pos) || exists|side: Directions|
            spread_done(entries, j, k, pos, side))
        &&& mid.has_chunk(pos) ==> forall|x: int, y: int, z: int|
            SChunk::is_interior(x, y, z) ==> #[trigger] now.voxel(pos, x, y, z) == mid.voxel(
                pos,
                x,
                y,
                z,
            )
        &&& now.has_chunk(pos) ==> forall|x: int, y: int, z: int|
            SChunk::in_range(x, y, z) ==> #[trigger] Self::spread_cell(
                pre,
                now,
                entries,
                j,
                k,
                pos,
                x,
                y,
                z,
            )
    }

    spec fn spread(
        pre: Self,
        mid: Self,
        now: Self,
        entries: Seq<PendingEdits>,
        j: int,
        k: int,
    ) -> bool {
        forall|p: ChunkPosition| #[trigger] Self::spread_at(pre, mid, now, entries, j, k, p)
    }

    proof fn lemma_spread_start(pre: Self, mid: Self, entries: Seq<PendingEdits>)
        requires
            queues_wf(entries),
            Self::written(pre, mid, entries, entries.len() as int),
        ensures
            Self::spread(pre, mid, mid, entries, 0, 0),
    {
        assert forall|p: ChunkPosition| #[trigger]
            Self::spread_at(pre, mid, mid, entries, 0, 0, p) by {
            reveal(spread_done);
            assert(Self::written_at(pre, mid, entries, entries.len() as int, p));
            if mid.has_chunk(p) {
                assert forall|x: int, y: int, z: int|
                    SChunk::in_range(x, y, z) implies #[trigger] Self::spread_cell(
                    pre,
                    mid,
                    entries,
                    0,
                    0,
                    p,
                    x,
                    y,
                    z,
                ) by {
                    if queued(entries, p) {
                        assert(Self::edited(
                            pre,
                            p,
                            mid.chunk(p),
                            queue_of(entries, p),
                            x,
                            y,
                            z,
                        ));
                    }
                }
            }
        }
    }

    /// What follows of a face that has been renewed.
    proof fn lemma_spread_source(
        pre: Self,
        mid: Self,
        now: Self,
        entries: Seq<PendingEdits>,
        j: int,
        k: int,
        pos: ChunkPosition,
        side: Directions,
    )
        requires
            queues_wf(entries),
            Self::written(pre, mid, entries, entries.len() as int),
            Self::spread(pre, mid, now, entries, j, k),
            spread_done(entries, j, k, pos, side),
        ensures
            side.spec_is_face(),
            spec_neighbor(pos, side) is Some,
            spec_neighbor(pos, side)->0 != pos,
            mid.has_chunk(spec_neighbor(pos, side)->0),
            now.has_chunk(spec_neighbor(pos, side)->0),
            now.has_chunk(pos),
            forall|x: int, y: int, z: int|
                SChunk::is_interior(x, y, z) ==> #[trigger] now.voxel(
                    spec_neighbor(pos, side)->0,
                    x,
                    y,
                    z,
                ) == mid.voxel(spec_neighbor(pos, side)->0, x, y, z),
    {
        reveal(spread_done);
        let from = spec_neighbor(pos, side)->0;
        assert(Self::written_at(pre, mid, entries, entries.len() as int, from));
        assert(Self::spread_at(pre, mid, now, entries, j, k, from));
        assert(Self::spread_at(pre, mid, now, entries, j, k, pos));
    }

    /// The state of one chunk after a step, from its state before: the faces
    /// that have been renewed are those that had been, and in the chunk at
    /// `target`, if there is one, the face `fresh` as well. `next` differs from
    /// `now` in the halo face `fresh` of the chunk at `target` alone.
    proof fn lemma_spread_at(
        pre: Self,
        mid: Self,
        now: Self,
        next: Self,
        entries: Seq<PendingEdits>,
        j: int,
        k: int,
        j2: int,
        k2: int,
        pos: ChunkPosition,
        target: Option<ChunkPosition>,
        fresh: Directions,
    )
        requires
            queues_wf(entries),
            Self::written(pre, mid, entries, entries.len() as int),
            Self::spread(pre, mid, now, entries, j, k),
            forall|side: Directions| #[trigger]
                spread_done(entries, j2, k2, pos, side) <==> (spread_done(entries, j, k, pos, side)
                    || (target == Some(pos) && side == fresh)),
            target != Some(pos) ==> next.chunk_at(pos) == now.chunk_at(pos),
            forall|p: ChunkPosition, x: int, y: int, z: int|
                now.has_chunk(p) && SChunk::is_interior(x, y, z) ==> next.has_chunk(p)
                    && #[trigger] next.voxel(p, x, y, z) == now.voxel(p, x, y, z),
            target == Some(pos) ==> {
                &&& fresh.spec_is_face()
                &&& next.has_chunk(pos)
                &&& spec_neighbor(pos, fresh) is Some
                &&& now.has_chunk(spec_neighbor(pos, fresh)->0)
                &&& forall|x: int, y: int, z: int|
                    SChunk::in_range(x, y, z) ==> if SChunk::on_halo_face(fresh, x, y, z) {
                        #[trigger] next.voxel(pos, x, y, z) == now.voxel(
                            spec_neighbor(pos, fresh)->0,
                            SChunk::across(fresh.offset().0, x),
                            SChunk::across(fresh.offset().1, y),
                            SChunk::across(fresh.offset().2, z),
                        )
                    } else if now.has_chunk(pos) {
                        next.voxel(pos, x, y, z) == now.voxel(pos, x, y, z)
                    } else {
                        fresh_cell(pre.generator(), pos, x, y, z, next.voxel(pos, x, y, z))
                    }
            },
        ensures
            Self::spread_at(pre, mid, next, entries, j2, k2, pos),
    {
        assert(Self::spread_at(pre, mid, now, entries, j, k, pos));
        assert(Self::written_at(pre, mid, entries, entries.len() as int, pos));
        let hit = target == Some(pos);
        if exists|side: Directions| spread_done(entries, j, k, pos, side) {
            let side = choose|side: Directions| spread_done(entries, j, k, pos, side);
            assert(spread_done(entries, j2, k2, pos, side));
        }
        if hit {
            assert(spread_done(entries, j2, k2, pos, fresh));
        }
        assert(next.has_chunk(pos) <==> (mid.has_chunk(pos) || exists|side: Directions|
            spread_done(entries, j2, k2, pos, side)));
        if next.has_chunk(pos) {
            assert forall|x: int, y: int, z: int|
                SChunk::in_range(x, y, z) implies #[trigger] Self::spread_cell(
                pre,
                next,
                entries,
                j2,
                k2,
                pos,
                x,
                y,
                z,
            ) by {
                let side = halo_side(x, y, z);
                let o = side.offset();
                if hit && SChunk::on_halo_face(fresh, x, y, z) {
                    assert(SChunk::is_interior(
                        SChunk::across(o.0, x),
                        SChunk::across(o.1, y),
                        SChunk::across(o.2, z),
                    ));
                } else {
                    assert(spread_done(entries, j2, k2, pos, side) == spread_done(
                        entries,
                        j,
                        k,
                        pos,
                        side,
                    ));
                    if spread_done(entries, j, k, pos, side) {
                        Self::lemma_spread_source(pre, mid, now, entries, j, k, pos, side);
                        assert(Self::spread_cell(pre, now, entries, j, k, pos, x, y, z));
                        assert(SChunk::is_interior(
                            SChunk::across(o.0, x),
                            SChunk::across(o.1, y),
                            SChunk::across(o.2, z),
                        ));
                    } else if now.has_chunk(pos) {
                        assert(Self::spread_cell(pre, now, entries, j, k, pos, x, y, z));
                        assert(next.voxel(pos, x, y, z) == now.voxel(pos, x, y, z));
                    } else {
                        assert(fresh_cell(
                            pre.generator(),
                            pos,
                            x,
                            y,
                            z,
                            next.voxel(pos, x, y, z),
                        ));
                    }
                }
            }
        }
    }

    /// Nothing changes between the last face of one entry and the first face
    /// of the next.
    proof fn lemma_spread_next(
        pre: Self,
        mid: Self,
        now: Self,
        entries: Seq<PendingEdits>,
        j: int,
    )
        requires
            queues_wf(entries),
            0 <= j < entries.len(),
            Self::written(pre, mid, entries, entries.len() as int),
            Self::spread(pre, mid, now, entries, j, 6),
        ensures
            Self::spread(pre, mid, now, entries, j + 1, 0),
    {
        assert forall|p: ChunkPosition| #[trigger]
            Self::spread_at(pre, mid, now, entries, j + 1, 0, p) by {
            assert forall|side: Directions| #[trigger]
                spread_done(entries, j + 1, 0, p, side) <==> (spread_done(entries, j, 6, p, side)
                    || (None::<ChunkPosition> == Some(p) && side == Directions::spec_empty())) by {
                lemma_spread_step(entries, j, 5, p, side);
            }
            Self::lemma_spread_at(
                pre,
                mid,
                now,
                now,
                entries,
                j,
                6,
                j + 1,
                0,
                p,
                None,
                Directions::spec_empty(),
            );
        }
    }

    /// A step in which no border is copied.
    proof fn lemma_spread_skip(
        pre: Self,
        mid: Self,
        now: Self,
        entries: Seq<PendingEdits>,
        j: int,
        k: int,
    )
        requires
            queues_wf(entries),
            0 <= j < entries.len(),
            0 <= k < 6,
            Self::written(pre, mid, entries, entries.len() as int),
            Self::spread(pre, mid, now, entries, j, k),
            !touched(entries[j].edits@).spec_contains(Directions::face_seq()[k]) || spec_neighbor(
                entries[j].pos,
                Directions::face_seq()[k],
            ) is None,
        ensures
            Self::spread(pre, mid, now, entries, j, k + 1),
    {
        assert forall|p: ChunkPosition| #[trigger]
            Self::spread_at(pre, mid, now, entries, j, k + 1, p) by {
            assert forall|side: Directions| #[trigger]
                spread_done(entries, j, k + 1, p, side) <==> (spread_done(entries, j, k, p, side)
                    || (None::<ChunkPosition> == Some(p) && side == Directions::spec_empty())) by {
                lemma_spread_step(entries, j, k, p, side);
            }
            Self::lemma_spread_at(
                pre,
                mid,
                now,
                now,
                entries,
                j,
                k,
                j,
                k + 1,
                p,
                None,
                Directions::spec_empty(),
            );
        }
    }

    /// A step in which the chunk at `target` takes over the border of the
    /// chunk of entry `j` that touches it.
    proof fn lemma_spread_copy(
        pre: Self,
        mid: Self,
        now: Self,
        next: Self,
        entries: Seq<PendingEdits>,
        j: int,
        k: int,
        target: ChunkPosition,
        base: SChunk,
    )
        requires
            queues_wf(entries),
            0 <= j < entries.len(),
            0 <= k < 6,
            Self::written(pre, mid, entries, entries.len() as int),
            Self::spread(pre, mid, now, entries, j, k),
            touched(entries[j].edits@).spec_contains(Directions::face_seq()[k]),
            spec_neighbor(entries[j].pos, Directions::face_seq()[k]) == Some(target),
            now.has_chunk(target) ==> forall|x: int, y: int, z: int|
                #[trigger] base.voxel(x, y, z) == now.voxel(target, x, y, z),
            now.generator() == pre.generator(),
            !now.has_chunk(target) ==> generated(pre.generator(), target, base),
            next.has_chunk(target),
            SChunk::borders_copied(
                base,
                next.chunk(target),
                now.chunk(entries[j].pos),
                Directions::face_seq()[k].spec_invert(),
            ),
            forall|p: ChunkPosition| p != target ==> #[trigger] next.chunk_at(p) == now.chunk_at(p),
        ensures
            Self::spread(pre, mid, next, entries, j, k + 1),
    {
        let d = Directions::face_seq()[k];
        let h = d.spec_invert();
        let source = entries[j].pos;
        assert(Self::written_at(pre, mid, entries, entries.len() as int, source));
        assert(Self::spread_at(pre, mid, now, entries, j, k, source));
        assert forall|p: ChunkPosition| #[trigger]
            Self::spread_at(pre, mid, next, entries, j, k + 1, p) by {
            assert forall|side: Directions| #[trigger]
                spread_done(entries, j, k + 1, p, side) <==> (spread_done(entries, j, k, p, side)
                    || (Some(target) == Some(p) && side == h)) by {
                lemma_spread_step(entries, j, k, p, side);
            }
            Self::lemma_spread_at(pre, mid, now, next, entries, j, k, j, k + 1, p, Some(target), h);
        }
    }

    /// For each of `changes` and each face that its edits touch: the chunk
    /// beyond that face, which is made first if it is not there, takes over the
    /// border.
    fn spread_borders(
        &mut self,
        changes: &Vec<PendingEdits>,
        borders: &Vec<Directions>,
        Ghost(pre): Ghost<Self>,
    )
        requires
            queues_wf(changes@),
            old(self).procedural == pre.procedural,
            Self::written(pre, *old(self), changes@, changes@.len() as int),
            borders@.len() == changes@.len(),
            forall|j: int|
                0 <= j < changes@.len() ==> #[trigger] borders@[j] == touched(changes@[j].edits@),
        ensures
            final(self).chunk_changes == old(self).chunk_changes,
            final(self).procedural == old(self).procedural,
            final(self).dirty == old(self).dirty,
            Self::spread(pre, *old(self), *final(self), changes@, changes@.len() as int, 0),
    {
        let ghost entries = changes@;
        let ghost mid = *self;
        let face_list = Directions::faces();
        proof {
            Self::lemma_spread_start(pre, mid, entries);
        }
        let mut j: usize = 0;
        while j < changes.len()
            invariant
                entries == changes@,
                mid == *old(self),
                queues_wf(entries),
                face_list@ == Directions::face_seq(),
                0 <= j <= entries.len(),
                borders@.len() == entries.len(),
                forall|i: int|
                    0 <= i < entries.len() ==> #[trigger] borders@[i] == touched(entries[i].edits@),
                self.chunk_changes == old(self).chunk_changes,
                self.procedural == old(self).procedural,
                self.dirty == old(self).dirty,
                self.procedural == pre.procedural,
                Self::written(pre, mid, entries, entries.len() as int),
                Self::spread(pre, mid, *self, entries, j as int, 0),
            decreases entries.len() - j,
        {
            let pos = changes[j].pos;
            let mut k: usize = 0;
            while k < 6
                invariant
                    entries == changes@,
                    mid == *old(self),
                    queues_wf(entries),
                    face_list@ == Directions::face_seq(),
                    0 <= j < entries.len(),
                    0 <= k <= 6,
                    pos == entries[j as int].pos,
                    borders@.len() == entries.len(),
                    forall|i: int|
                        0 <= i < entries.len() ==> #[trigger] borders@[i] == touched(
                            entries[i].edits@,
                        ),
                    self.chunk_changes == old(self).chunk_changes,
                    self.procedural == old(self).procedural,
                    self.dirty == old(self).dirty,
                    self.procedural == pre.procedural,
                    Self::written(pre, mid, entries, entries.len() as int),
                    Self::spread(pre, mid, *self, entries, j as int, k as int),
                decreases 6 - k,
            {
                let dir = face_list[k];
                let ghost now = *self;
                let mut copied = false;
                if borders[j].contains(dir) {
                    if let Some(target) = neighbor(pos, dir) {
                        proof {
                            assert(Self::written_at(pre, mid, entries, entries.len() as int, pos));
                            assert(Self::spread_at(
                                pre,
                                mid,
                                now,
                                entries,
                                j as int,
                                k as int,
                                pos,
                            ));
                        }
                        self.materialize(&target);
                        let mut chunk = self.copy_chunk(&target);
                        let ghost base = chunk;
                        let source = self.chunk_handle(&pos);
                        chunk.copy_borders(&*source, dir.invert());
                        self.put_chunk(&target, chunk);
                        copied = true;
                        proof {
                            Self::lemma_spread_copy(
                                pre,
                                mid,
                                now,
                                *self,
                                entries,
                                j as int,
                                k as int,
                                target,
                                base,
                            );
                        }
                    }
                }
                proof {
                    if !copied {
                        Self::lemma_spread_skip(pre, mid, now, entries, j as int, k as int);
                    }
                }
                k = k + 1;
            }
            proof {
                Self::lemma_spread_next(pre, mid, *self, entries, j as int);
            }
            j = j + 1;
        }
    }

    proof fn lemma_committed(pre: Self, mid: Self, post: Self)
        requires
            pre.wf(),
            post.chunk_changes@ == Seq::<PendingEdits>::empty(),
            post.procedural == pre.procedural,
            post.dirty == pre.dirty,
            Self::written(pre, mid, pre.chunk_changes@, pre.chunk_changes@.len() as int),
            Self::spread(pre, mid, post, pre.chunk_changes@, pre.chunk_changes@.len() as int, 0),
        ensures
            Self::committed(pre, post),
    {
        let entries = pre.chunk_changes@;
        let n = entries.len() as int;
        assert forall|p: ChunkPosition, side: Directions|
            #[trigger] spread_done(entries, n, 0, p, side) == pre.renews(p, side) by {
            reveal(spread_done);
        }
        assert forall|p: ChunkPosition| #[trigger]
            post.has_chunk(p) <==> (pre.has_chunk(p) || pre.pending(p).len() > 0 || exists|
                side: Directions,
            |
                pre.renews(p, side)) by {
            assert(Self::spread_at(pre, mid, post, entries, n, 0, p));
            assert(Self::written_at(pre, mid, entries, n, p));
            if exists|side: Directions| pre.renews(p, side) {
                let side = choose|side: Directions| pre.renews(p, side);
                assert(spread_done(entries, n, 0, p, side));
            }
        }
        assert forall|p: ChunkPosition, x: int, y: int, z: int|
            post.has_chunk(p) && SChunk::in_range(x, y, z) implies #[trigger] Self::cell_committed(
            pre,
            post,
            p,
            x,
            y,
            z,
        ) by {
            assert(Self::spread_at(pre, mid, post, entries, n, 0, p));
            assert(Self::spread_cell(pre, post, entries, n, 0, p, x, y, z));
        }
    }

    /// The commit. First the edits that wait are written, chunk by chunk and
    /// for each chunk oldest first, so that of two edits of one cell the later
    /// stays. Then, for each face of a chunk on which an edited cell lies, the
    /// neighbour beyond that face takes the chunk's border into its halo. A
    /// chunk that is needed and not there is made first. Each chunk that
    /// changes is replaced by a new snapshot; handles from before the commit
    /// keep showing the old one.
    pub fn apply_voxel_changes(&mut self)
        requires
            old(self).wf(),
        ensures
            final(self).wf(),
            Self::committed(*old(self), *final(self)),
    {
        let mut changes: Vec<PendingEdits> = Vec::new();
        std::mem::swap(&mut self.chunk_changes, &mut changes);
        let ghost taken = *self;
        let borders = self.write_edits(&changes);
        let ghost mid = *self;
        proof {
            assert forall|p: ChunkPosition| #[trigger]
                Self::written_at(*old(self), mid, changes@, changes@.len() as int, p) by {
                assert(Self::written_at(taken, mid, changes@, changes@.len() as int, p));
                if queued(changes@, p) {
                    assert forall|x: int, y: int, z: int|
                        SChunk::in_range(x, y, z) implies #[trigger] Self::edited(
                        *old(self),
                        p,
                        mid.chunk(p),
                        queue_of(changes@, p),
                        x,
                        y,
                        z,
                    ) by {
                        assert(Self::edited(
                            taken,
                            p,
                            mid.chunk(p),
                            queue_of(changes@, p),
                            x,
                            y,
                            z,
                        ));
                    }
                }
            }
        }
        self.spread_borders(&changes, &borders, Ghost(*old(self)));
        proof {
            Self::lemma_committed(*old(self), mid, *self);
        }
    }

    /// Every edit that waits names an interior cell.
    pub proof fn lemma_pending_in_chunk(&self, pos: ChunkPosition)
        requires
            self.wf(),
        ensures
            forall|i: int|
                0 <= i < self.pending(pos).len() ==> (#[trigger] self.pending(pos)[i]).in_chunk(),
    {
    }

    /// An edit that is queued does not show before the commit: every chunk is
    /// as it was.
    pub proof fn lemma_queued_edit_is_hidden(
        pre: Self,
        post: Self,
        pos: ChunkPosition,
        change: VoxChange,
    )
        requires
            Self::edit_queued(pre, post, pos, change),
        ensures
            forall|p: ChunkPosition, x: int, y: int, z: int|
                post.has_chunk(p) == pre.has_chunk(p) && #[trigger] post.voxel(p, x, y, z)
                    == pre.voxel(p, x, y, z),
    {
    }

    /// After the commit the cell of an edit that waited holds the voxel of
    /// that edit, unless a later edit of the same cell waited too: then it
    /// holds the voxel of the last of them.
    pub proof fn lemma_commit_writes_last_edit(pre: Self, post: Self, pos: ChunkPosition, i: int)
        requires
            pre.wf(),
            Self::committed(pre, post),
            0 <= i < pre.pending(pos).len(),
            forall|j: int|
                i < j < pre.pending(pos).len() ==> (#[trigger] pre.pending(pos)[j]).index@
                    != pre.pending(pos)[i].index@,
        ensures
            post.has_chunk(pos),
            post.voxel(
                pos,
                pre.pending(pos)[i].index[0] as int,
                pre.pending(pos)[i].index[1] as int,
                pre.pending(pos)[i].index[2] as int,
            ) == pre.pending(pos)[i].new_vox,
    {
        let e = pre.pending(pos)[i];
        lemma_last_edit(pre.pending(pos), i);
        assert(Self::cell_committed(
            pre,
            post,
            pos,
            e.index[0] as int,
            e.index[1] as int,
            e.index[2] as int,
        ));
    }

    /// An edit that is queued and then committed shows: its cell holds its voxel.
    pub proof fn lemma_committed_edit_shows(
        start: Self,
        queued: Self,
        post: Self,
        pos: ChunkPosition,
        change: VoxChange,
    )
        requires
            queued.wf(),
            Self::edit_queued(start, queued, pos, change),
            Self::committed(queued, post),
        ensures
            post.has_chunk(pos),
            post.voxel(pos, change.index[0] as int, change.index[1] as int, change.index[2] as int)
                == change.new_vox,
    {
        let n = start.pending(pos).len() as int;
        Self::lemma_commit_writes_last_edit(queued, post, pos, n);
    }

    /// A cell that no waiting edit names, in a chunk that was there, is after
    /// the commit as it was, unless it lies on a halo face that the commit renews.
    pub proof fn lemma_commit_keeps_rest(
        pre: Self,
        post: Self,
        pos: ChunkPosition,
        x: int,
        y: int,
        z: int,
    )
        requires
            pre.wf(),
            Self::committed(pre, post),
            pre.has_chunk(pos),
            SChunk::in_range(x, y, z),
            !pre.renews(pos, halo_side(x, y, z)),
            forall|j: int|
                0 <= j < pre.pending(pos).len() ==> !((#[trigger] pre.pending(pos)[j]).index[0] == x
                    && pre.pending(pos)[j].index[1] == y && pre.pending(pos)[j].index[2] == z),
        ensures
            post.has_chunk(pos),
            post.voxel(pos, x, y, z) == pre.voxel(pos, x, y, z),
    {
        lemma_last_edit_none(pre.pending(pos), x, y, z);
        assert(Self::cell_committed(pre, post, pos, x, y, z));
    }

    /// An edit of a cell on a face of its chunk reaches the neighbour beyond
    /// that face with the commit: the neighbour is there afterwards, and the
    /// face of its halo that looks back at the chunk holds, cell for cell, the
    /// chunk's layer on that side as the commit left it.
    pub proof fn lemma_commit_spreads_border(
        pre: Self,
        post: Self,
        pos: ChunkPosition,
        i: int,
        side: Directions,
    )
        requires
            pre.wf(),
            Self::committed(pre, post),
            0 <= i < pre.pending(pos).len(),
            side.spec_is_face(),
            SChunk::border_of(pre.pending(pos)[i].index).spec_contains(side),
            spec_neighbor(pos, side) is Some,
        ensures
            post.has_chunk(pos),
            post.has_chunk(spec_neighbor(pos, side)->0),
            forall|x: int, y: int, z: int|
                SChunk::on_halo_face(side.spec_invert(), x, y, z) ==> #[trigger] post.voxel(
                    spec_neighbor(pos, side)->0,
                    x,
                    y,
                    z,
                ) == post.voxel(
                    pos,
                    SChunk::across(side.spec_invert().offset().0, x),
                    SChunk::across(side.spec_invert().offset().1, y),
                    SChunk::across(side.spec_invert().offset().2, z),
                ),
    {
        let next = spec_neighbor(pos, side)->0;
        let back = side.spec_invert();
        lemma_touched(pre.pending(pos), i, side);
        assert(pre.renews(next, back));
        assert forall|x: int, y: int, z: int|
            SChunk::on_halo_face(back, x, y, z) implies #[trigger] post.voxel(next, x, y, z)
            == post.voxel(
            pos,
            SChunk::across(back.offset().0, x),
            SChunk::across(back.offset().1, y),
            SChunk::across(back.offset().2, z),
        ) by {
            assert(Self::cell_committed(pre, post, next, x, y, z));
        }
    }

    /// Asking for a chunk a second time changes nothing: the world holds the
    /// same chunks as after the first time, among them the one chunk at `pos`.
    pub proof fn lemma_chunk_made_once(first: Self, second: Self, third: Self, pos: ChunkPosition)
        requires
            Self::materialized(first, second, pos),
            Self::materialized(second, third, pos),
        ensures
            Self::same_chunks(second, third),
            third.chunk(pos) == second.chunk(pos),
    {
    }

}

} // verus!
