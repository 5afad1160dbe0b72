//! The concurrent map in which a world keeps its chunks, and the concurrent
//! set in which it keeps the marks of the chunks whose meshes are out of
//! date. Both are `flurry`'s; a chunk in the map is a snapshot behind an `Arc`,
//! which is never changed in place and is replaced as a whole. What the map
//! and the set hold is known to the verifier only through the contracts
//! stated here, which are believed and not proved.

use std::sync::Arc;
use vstd::prelude::*;
use crate::chunk::SChunk;

verus! {

/// `flurry::HashMap`, of which nothing but its name is made known.
#[verifier::external_type_specification]
#[verifier::external_body]
#[verifier::reject_recursive_types(K)]
#[verifier::reject_recursive_types(V)]
#[verifier::reject_recursive_types(S)]
pub struct ExConcurrentMap<K, V, S>(flurry::HashMap<K, V, S>);

/// `flurry::DefaultHashBuilder`, the hasher of a map made by `flurry::HashMap::new`.
#[verifier::external_type_specification]
#[verifier::external_body]
pub struct ExHashBuilder(flurry::DefaultHashBuilder);

/// A concurrent map from the coordinates of a chunk to the chunk.
pub type ChunkMap = flurry::HashMap<(i32, i32, i32), Arc<SChunk>>;

/// What a map holds: the chunk under each key that is in it.
pub uninterp spec fn map_chunks(m: ChunkMap) -> Map<(i32, i32, i32), SChunk>;

/// No chunk under any key.
pub open spec fn no_chunks() -> Map<(i32, i32, i32), SChunk> {
    Map::empty()
}

/// `flurry::HashMap::new`: a map that holds nothing.
#[verifier::external_body]
pub(crate) fn chunk_map_new() -> (m: ChunkMap)
    ensures
        map_chunks(m) == no_chunks(),
{
    flurry::HashMap::new()
}

/// `flurry::HashMapRef::get` on the pinned map: a handle to the chunk under
/// `key`, if the map holds one.
#[verifier::external_body]
pub(crate) fn chunk_map_get(m: &ChunkMap, key: (i32, i32, i32)) -> (r: Option<Arc<SChunk>>)
    ensures
        r is Some <==> map_chunks(*m).contains_key(key),
        r matches Some(c) ==> *c == map_chunks(*m)[key],
{
    m.pin().get(&key).cloned()
}

/// `flurry::HashMapRef::try_insert` on the pinned map: `chunk` goes under `key`
/// unless the map holds a chunk under that key already, which then stays. The
/// result is a handle to the chunk that is under `key` afterwards.
#[verifier::external_body]
pub(crate) fn chunk_map_try_insert(
    m: &mut ChunkMap,
    key: (i32, i32, i32),
    chunk: Arc<SChunk>,
) -> (r: Arc<SChunk>)
    ensures
        map_chunks(*final(m)) == if map_chunks(*old(m)).contains_key(key) {
            map_chunks(*old(m))
        } else {
            map_chunks(*old(m)).insert(key, *chunk)
        },
        *r == map_chunks(*final(m))[key],
{
    match m.pin().try_insert(key, chunk) {
        Ok(stored) => stored.clone(),
        Err(kept) => kept.current.clone(),
    }
}

/// `flurry::HashMapRef::insert` on the pinned map: `chunk` is under `key`
/// afterwards, in place of the chunk that was under it, if there was one.
#[verifier::external_body]
pub(crate) fn chunk_map_insert(m: &mut ChunkMap, key: (i32, i32, i32), chunk: Arc<SChunk>)
    ensures
        map_chunks(*final(m)) == map_chunks(*old(m)).insert(key, *chunk),
{
    m.pin().insert(key, chunk);
}

/// `flurry::HashSet`, of which nothing but its name is made known.
#[verifier::external_type_specification]
#[verifier::external_body]
#[verifier::reject_recursive_types(T)]
#[verifier::reject_recursive_types(S)]
pub struct ExConcurrentSet<T, S>(flurry::HashSet<T, S>);

/// A concurrent set of the coordinates of chunks.
pub type PositionSet = flurry::HashSet<(i32, i32, i32)>;

/// What a set holds.
pub uninterp spec fn set_positions(s: PositionSet) -> Set<(i32, i32, i32)>;

/// No coordinates at all.
pub open spec fn no_positions() -> Set<(i32, i32, i32)> {
    Set::empty()
}

/// `flurry::HashSet::new`: a set that holds nothing.
#[verifier::external_body]
pub(crate) fn position_set_new() -> (s: PositionSet)
    ensures
        set_positions(s) == no_positions(),
{
    flurry::HashSet::new()
}

/// `flurry::HashSetRef::contains` on the pinned set: whether `key` is in the set.
#[verifier::external_body]
pub(crate) fn position_set_contains(s: &PositionSet, key: (i32, i32, i32)) -> (r: bool)
    ensures
        r == set_positions(*s).contains(key),
{
    s.pin().contains(&key)
}

/// `flurry::HashSetRef::insert` on the pinned set: `key` is in the set
/// afterwards; the result says whether it was not in it before.
#[verifier::external_body]
pub(crate) fn position_set_insert(s: &mut PositionSet, key: (i32, i32, i32)) -> (r: bool)
    ensures
        set_positions(*final(s)) == set_positions(*old(s)).insert(key),
        r == !set_positions(*old(s)).contains(key),
{
    s.pin().insert(key)
}

/// `flurry::HashSetRef::remove` on the pinned set: `key` is not in the set
/// afterwards; the result says whether it was in it before.
#[verifier::external_body]
pub(crate) fn position_set_remove(s: &mut PositionSet, key: (i32, i32, i32)) -> (r: bool)
    ensures
        set_positions(*final(s)) == set_positions(*old(s)).remove(key),
        r == set_positions(*old(s)).contains(key),
{
    s.pin().remove(&key)
}

} // verus!
