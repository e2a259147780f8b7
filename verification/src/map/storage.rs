use vstd::prelude::*;

use crate::map::tilemap::Tile;
use crate::math::IVec3;

verus! {

pub const DEFAULT_CHUNK_SIZE: u32 = 8;

/// The key of a chunk in hash collections: the components of its index.
pub type ChunkKey = (i32, i32, i32);

/// The slots of one chunk; a slot is empty or holds an item.
#[derive(Clone)]
pub struct Chunk<T>(pub Vec<Option<T>>);

impl<T> View for Chunk<T> {
    type V = Seq<Option<T>>;

    open spec fn view(&self) -> Seq<Option<T>> {
        self.0@
    }
}

impl<T> Chunk<T> {
    /// A chunk with no slots.
    pub fn new() -> (r: Self)
        ensures
            r@ == Seq::<Option<T>>::empty(),
    {
        Chunk(Vec::new())
    }

    /// The chunk whose slots are those of `slots`.
    pub fn from_vec(slots: Vec<Option<T>>) -> (r: Self)
        ensures
            r@ == slots@,
    {
        Chunk(slots)
    }

    pub fn len(&self) -> (r: usize)
        ensures
            r == self@.len(),
    {
        self.0.len()
    }
}

/// An index that names a chunk and a slot in it.
pub trait ChunkableIndex {
    spec fn chunk_of(&self) -> IVec3;

    spec fn slot_of(&self) -> usize;

    fn in_chunk(&self) -> (r: IVec3)
        ensures
            r == self.chunk_of(),
    ;

    fn in_chunk_at(&self) -> (r: usize)
        ensures
            r == self.slot_of(),
    ;
}

/// A hash map from chunk keys to chunks of tiles, held in `bevy`'s
/// `HashMap` (`hashbrown`'s).
#[verifier::external_body]
pub struct TileChunkMap {
    inner: bevy::utils::HashMap<ChunkKey, Chunk<Tile>>,
}

/// What a [`TileChunkMap`] holds.
pub uninterp spec fn tile_chunk_map_contents(m: TileChunkMap) -> Map<ChunkKey, Chunk<Tile>>;

impl TileChunkMap {
    /// `HashMap::default`: an empty map.
    #[verifier::external_body]
    pub(crate) fn new() -> (r: Self)
        ensures
            tile_chunk_map_contents(r).dom().is_empty(),
    {
        TileChunkMap { inner: Default::default() }
    }

    /// `HashMap::get`: the value under `k`, if any.
    #[verifier::external_body]
    pub(crate) fn get(&self, k: &ChunkKey) -> (r: Option<&Chunk<Tile>>)
        ensures
            match r {
                Some(c) => tile_chunk_map_contents(*self).contains_key(*k) && *c
                    == tile_chunk_map_contents(*self)[*k],
                None => !tile_chunk_map_contents(*self).contains_key(*k),
            },
    {
        self.inner.get(k)
    }

    /// `HashMap::get_mut`: a mutable reference to the value under `k`, if
    /// any; what is written through it becomes the value under `k`.
    #[verifier::external_body]
    pub(crate) fn get_mut(&mut self, k: &ChunkKey) -> (r: Option<&mut Chunk<Tile>>)
        ensures
            tile_chunk_map_contents(*old(self)).contains_key(*k) ==> {
                &&& r is Some
                &&& *r.unwrap() == tile_chunk_map_contents(*old(self))[*k]
                &&& tile_chunk_map_contents(*final(self)) == tile_chunk_map_contents(
                    *old(self),
                ).insert(*k, *final(r.unwrap()))
            },
            !tile_chunk_map_contents(*old(self)).contains_key(*k) ==> {
                &&& r is None
                &&& tile_chunk_map_contents(*final(self)) == tile_chunk_map_contents(*old(self))
            },
    {
        self.inner.get_mut(k)
    }

    /// `HashMap::insert`: puts `v` under `k` and hands back what was there.
    #[verifier::external_body]
    pub(crate) fn insert(&mut self, k: ChunkKey, v: Chunk<Tile>) -> (r: Option<Chunk<Tile>>)
        ensures
            tile_chunk_map_contents(*final(self)) == tile_chunk_map_contents(*old(self)).insert(
                k,
                v,
            ),
            r == (if tile_chunk_map_contents(*old(self)).contains_key(k) {
                Some(tile_chunk_map_contents(*old(self))[k])
            } else {
                None
            }),
    {
        self.inner.insert(k, v)
    }

    /// `HashMap::remove`: takes the value under `k` out, if any.
    #[verifier::external_body]
    pub(crate) fn remove(&mut self, k: &ChunkKey) -> (r: Option<Chunk<Tile>>)
        ensures
            tile_chunk_map_contents(*final(self)) == tile_chunk_map_contents(*old(self)).remove(
                *k,
            ),
            r == (if tile_chunk_map_contents(*old(self)).contains_key(*k) {
                Some(tile_chunk_map_contents(*old(self))[*k])
            } else {
                None
            }),
    {
        self.inner.remove(k)
    }

    /// `HashMap::keys`, collected: every key once, in the map's own order.
    #[verifier::external_body]
    pub(crate) fn keys(&self) -> (r: Vec<ChunkKey>)
        ensures
            r@.to_set() == tile_chunk_map_contents(*self).dom(),
            r@.no_duplicates(),
    {
        self.inner.keys().copied().collect()
    }

    /// `HashMap::clear`: removes every entry.
    #[verifier::external_body]
    pub(crate) fn clear(&mut self)
        ensures
            tile_chunk_map_contents(*final(self)).dom().is_empty(),
    {
        self.inner.clear()
    }
}

/// Tiles stored in chunks of `chunk_size` to the power 3 slots, the chunks
/// kept in a hash map by their index.
pub struct ChunkedStorage {
    chunk_size: u32,
    storage: TileChunkMap,
}

/// The slots of a chunk that [`ChunkedStorage::set`] creates: `n` empty slots.
pub open spec fn empty_slots(n: nat) -> Seq<Option<Tile>> {
    Seq::new(n, |i: int| None::<Tile>)
}

/// What the slot `at` of chunk `k` holds in `m`; `None` where there is no such slot.
pub open spec fn map_slot(m: Map<ChunkKey, Seq<Option<Tile>>>, k: ChunkKey, at: int) -> Option<Tile> {
    if m.contains_key(k) && 0 <= at < m[k].len() {
        m[k][at]
    } else {
        None
    }
}

/// The chunks after `item` is put into slot `at` of chunk `k`, the chunk
/// created with `cube(cs)` empty slots where there was none.
pub open spec fn set_chunks(
    m: Map<ChunkKey, Seq<Option<Tile>>>,
    cs: u32,
    k: ChunkKey,
    at: int,
    item: Tile,
) -> Map<ChunkKey, Seq<Option<Tile>>> {
    m.insert(
        k,
        (if m.contains_key(k) {
            m[k]
        } else {
            empty_slots(cube(cs) as nat)
        }).update(at, Some(item)),
    )
}

/// The chunks after slot `at` of chunk `k` is emptied; unchanged where there is no such chunk.
pub open spec fn remove_chunks(m: Map<ChunkKey, Seq<Option<Tile>>>, k: ChunkKey, at: int) -> Map<
    ChunkKey,
    Seq<Option<Tile>>,
> {
    if m.contains_key(k) {
        m.insert(k, m[k].update(at, None))
    } else {
        m
    }
}

/// `chunk_size` to the power 3.
pub open spec fn cube(cs: u32) -> int {
    cs * cs * cs
}

impl ChunkedStorage {
    pub closed spec fn spec_chunk_size(&self) -> u32 {
        self.chunk_size
    }

    /// The chunks, each as its sequence of slots.
    pub closed spec fn chunks(&self) -> Map<ChunkKey, Seq<Option<Tile>>> {
        tile_chunk_map_contents(self.storage).map_values(|c: Chunk<Tile>| c@)
    }

    /// The chunks as they are stored.
    pub closed spec fn chunk_values(&self) -> Map<ChunkKey, Chunk<Tile>> {
        tile_chunk_map_contents(self.storage)
    }

    /// What the slot `at` of chunk `k` holds; `None` where there is no such slot.
    pub open spec fn slot(&self, k: ChunkKey, at: int) -> Option<Tile> {
        map_slot(self.chunks(), k, at)
    }

    /// Reading slot `at` of chunk `k` stays inside the chunk, where the chunk exists.
    pub open spec fn slot_in_bounds(&self, k: ChunkKey, at: int) -> bool {
        self.chunks().contains_key(k) ==> at < self.chunks()[k].len()
    }

    proof fn lemma_chunks_view(&self, k: ChunkKey)
        ensures
            self.chunks().contains_key(k) == self.chunk_values().contains_key(k),
            self.chunk_values().contains_key(k) ==> self.chunks()[k] == self.chunk_values()[k]@,
    {
    }

    pub fn new(chunk_size: u32) -> (r: Self)
        ensures
            r.spec_chunk_size() == chunk_size,
            r.chunks() == Map::<ChunkKey, Seq<Option<Tile>>>::empty(),
    {
        let r = ChunkedStorage { chunk_size, storage: TileChunkMap::new() };
        assert(r.chunks() =~= Map::<ChunkKey, Seq<Option<Tile>>>::empty());
        r
    }

    pub fn chunk_size(&self) -> (r: u32)
        ensures
            r == self.spec_chunk_size(),
    {
        self.chunk_size
    }

    /// The tile in the slot that `index` names, if the slot holds one.
    pub fn get<I: ChunkableIndex>(&self, index: &I) -> (r: Option<&Tile>)
        requires
            self.slot_in_bounds(index.chunk_of().key(), index.slot_of() as int),
        ensures
            match r {
                Some(t) => self.slot(index.chunk_of().key(), index.slot_of() as int) == Some(*t),
                None => self.slot(index.chunk_of().key(), index.slot_of() as int) is None,
            },
    {
        let k = index.in_chunk().to_key();
        let at = index.in_chunk_at();
        proof {
            self.lemma_chunks_view(k);
        }
        match self.storage.get(&k) {
            Some(c) => c.0[at].as_ref(),
            None => None,
        }
    }

    /// A mutable reference to the tile in the slot that `index` names, if the
    /// slot holds one; what is written through it becomes the slot's tile.
    pub fn get_mut<I: ChunkableIndex>(&mut self, index: &I) -> (r: Option<&mut Tile>)
        requires
            old(self).slot_in_bounds(index.chunk_of().key(), index.slot_of() as int),
        ensures
            final(self).spec_chunk_size() == old(self).spec_chunk_size(),
            forall|k2: ChunkKey|
                #[trigger] final(self).chunks().contains_key(k2) == old(self).chunks().contains_key(k2),
            forall|k2: ChunkKey|
                k2 != index.chunk_of().key() && old(self).chunks().contains_key(k2)
                    ==> #[trigger] final(self).chunks()[k2] == old(self).chunks()[k2],
            match old(self).slot(index.chunk_of().key(), index.slot_of() as int) {
                Some(t) => {
                    &&& r is Some
                    &&& *r.unwrap() == t
                    &&& final(self).chunks()[index.chunk_of().key()] == old(self).chunks()[index.chunk_of().key()].update(
                        index.slot_of() as int,
                        Some(*final(r.unwrap())),
                    )
                },
                None => {
                    &&& r is None
                    &&& old(self).chunks().contains_key(index.chunk_of().key()) ==> final(self).chunks()[index.chunk_of().key()]
                        == old(self).chunks()[index.chunk_of().key()]
                },
            },
    {
        let k = index.in_chunk().to_key();
        let at = index.in_chunk_at();
        proof {
            old(self).lemma_chunks_view(k);
        }
        let ghost before = tile_chunk_map_contents(self.storage);
        match self.storage.get_mut(&k) {
            Some(c) => {
                let slot = &mut c.0[at];
                slot.as_mut()
            },
            None => None,
        }
    }

    /// The chunk under `index`, if any.
    pub fn get_chunk(&self, index: &IVec3) -> (r: Option<&Chunk<Tile>>)
        ensures
            match r {
                Some(c) => self.chunks().contains_key(index.key()) && c@ == self.chunks()[index.key()],
                None => !self.chunks().contains_key(index.key()),
            },
    {
        let k = index.to_key();
        proof {
            self.lemma_chunks_view(k);
        }
        self.storage.get(&k)
    }

    /// Puts `item` into the slot that `index` names, creating its chunk with
    /// empty slots first where there is none, and hands back what the slot held.
    pub fn set<I: ChunkableIndex>(&mut self, index: I, item: Tile) -> (r: Option<Tile>)
        requires
            old(self).chunks().contains_key(index.chunk_of().key()) ==> index.slot_of()
                < old(self).chunks()[index.chunk_of().key()].len(),
            !old(self).chunks().contains_key(index.chunk_of().key()) ==> {
                &&& cube(old(self).spec_chunk_size()) <= u32::MAX
                &&& index.slot_of() < cube(old(self).spec_chunk_size())
            },
        ensures
            final(self).spec_chunk_size() == old(self).spec_chunk_size(),
            r == old(self).slot(index.chunk_of().key(), index.slot_of() as int),
            final(self).chunks() == set_chunks(
                old(self).chunks(),
                old(self).spec_chunk_size(),
                index.chunk_of().key(),
                index.slot_of() as int,
                item,
            ),
    {
        let k = index.in_chunk().to_key();
        let at = index.in_chunk_at();
        proof {
            old(self).lemma_chunks_view(k);
        }
        let mut chunk = match self.storage.remove(&k) {
            Some(c) => c,
            None => {
                let cs = self.chunk_size;
                proof {
                    assert(cs * cs <= cs * cs * cs || cs == 0) by (nonlinear_arith);
                    assert(0 <= cs * cs) by (nonlinear_arith);
                }
                let n = (cs * cs * cs) as usize;
                let mut slots: Vec<Option<Tile>> = Vec::new();
                let mut i: usize = 0;
                while i < n
                    invariant
                        i <= n,
                        slots@ == empty_slots(i as nat),
                    decreases n - i,
                {
                    slots.push(None);
                    i = i + 1;
                    assert(slots@ =~= empty_slots(i as nat));
                }
                Chunk(slots)
            },
        };
        let old_item = chunk.0[at];
        chunk.0.set(at, Some(item));
        self.storage.insert(k, chunk);
        proof {
            assert(final(self).chunks() =~= set_chunks(
                old(self).chunks(),
                old(self).spec_chunk_size(),
                k,
                at as int,
                item,
            ));
        }
        old_item
    }

    /// A mutable reference to the chunk under `index`, if any; what is
    /// written through it becomes that chunk.
    pub fn get_chunk_mut(&mut self, index: &IVec3) -> (r: Option<&mut Chunk<Tile>>)
        ensures
            final(self).spec_chunk_size() == old(self).spec_chunk_size(),
            forall|k2: ChunkKey|
                #[trigger] final(self).chunks().contains_key(k2) == old(self).chunks().contains_key(k2),
            forall|k2: ChunkKey|
                k2 != index.key() && old(self).chunks().contains_key(k2)
                    ==> #[trigger] final(self).chunks()[k2] == old(self).chunks()[k2],
            old(self).chunks().contains_key(index.key()) ==> {
                &&& r is Some
                &&& r.unwrap()@ == old(self).chunks()[index.key()]
                &&& final(self).chunks()[index.key()] == final(r.unwrap())@
            },
            !old(self).chunks().contains_key(index.key()) ==> r is None,
    {
        let k = index.to_key();
        proof {
            old(self).lemma_chunks_view(k);
        }
        self.storage.get_mut(&k)
    }

    /// Puts `chunk` under `index` and hands back the chunk that was there.
    pub fn set_chunk(&mut self, index: &IVec3, chunk: Chunk<Tile>) -> (r: Option<Chunk<Tile>>)
        ensures
            final(self).spec_chunk_size() == old(self).spec_chunk_size(),
            final(self).chunks() == old(self).chunks().insert(index.key(), chunk@),
            match r {
                Some(c) => old(self).chunks().contains_key(index.key()) && c@ == old(self).chunks()[index.key()],
                None => !old(self).chunks().contains_key(index.key()),
            },
    {
        let k = index.to_key();
        proof {
            old(self).lemma_chunks_view(k);
        }
        let r = self.storage.insert(k, chunk);
        assert(final(self).chunks() =~= old(self).chunks().insert(k, chunk@));
        r
    }

    /// Empties the slot that `index` names and hands back what it held.
    pub fn remove<I: ChunkableIndex>(&mut self, index: &I) -> (r: Option<Tile>)
        requires
            old(self).slot_in_bounds(index.chunk_of().key(), index.slot_of() as int),
        ensures
            final(self).spec_chunk_size() == old(self).spec_chunk_size(),
            r == old(self).slot(index.chunk_of().key(), index.slot_of() as int),
            final(self).chunks() == remove_chunks(
                old(self).chunks(),
                index.chunk_of().key(),
                index.slot_of() as int,
            ),
    {
        let k = index.in_chunk().to_key();
        let at = index.in_chunk_at();
        proof {
            old(self).lemma_chunks_view(k);
        }
        match self.storage.remove(&k) {
            Some(chunk) => {
                let mut chunk = chunk;
                let old_item = chunk.0[at];
                chunk.0.set(at, None);
                self.storage.insert(k, chunk);
                assert(final(self).chunks() =~= remove_chunks(old(self).chunks(), k, at as int));
                old_item
            },
            None => {
                assert(final(self).chunks() =~= old(self).chunks());
                None
            },
        }
    }

    /// Takes the chunk under `index` out.
    pub fn remove_chunk(&mut self, index: &IVec3) -> (r: Option<Chunk<Tile>>)
        ensures
            final(self).spec_chunk_size() == old(self).spec_chunk_size(),
            final(self).chunks() == old(self).chunks().remove(index.key()),
            match r {
                Some(c) => old(self).chunks().contains_key(index.key()) && c@ == old(self).chunks()[index.key()],
                None => !old(self).chunks().contains_key(index.key()),
            },
    {
        let k = index.to_key();
        proof {
            old(self).lemma_chunks_view(k);
        }
        let r = self.storage.remove(&k);
        assert(final(self).chunks() =~= old(self).chunks().remove(k));
        r
    }

    /// The keys of all chunks, each once.
    pub fn keys(&self) -> (r: Vec<ChunkKey>)
        ensures
            r@.to_set() == self.chunks().dom(),
            r@.no_duplicates(),
    {
        let r = self.storage.keys();
        assert(self.chunks().dom() =~= tile_chunk_map_contents(self.storage).dom());
        r
    }

    /// Removes every chunk.
    pub fn clear(&mut self)
        ensures
            final(self).spec_chunk_size() == old(self).spec_chunk_size(),
            final(self).chunks() == Map::<ChunkKey, Seq<Option<Tile>>>::empty(),
    {
        self.storage.clear();
        assert(final(self).chunks() =~= Map::<ChunkKey, Seq<Option<Tile>>>::empty());
    }
}

/// Writing a slot and reading it back gives the item written; every other
/// slot reads as before.
pub proof fn law_slot_after_set(
    m: Map<ChunkKey, Seq<Option<Tile>>>,
    cs: u32,
    k: ChunkKey,
    at: int,
    item: Tile,
    k2: ChunkKey,
    at2: int,
)
    requires
        0 <= at,
        m.contains_key(k) ==> at < m[k].len(),
        !m.contains_key(k) ==> at < cube(cs),
    ensures
        map_slot(set_chunks(m, cs, k, at, item), k, at) == Some(item),
        k2 != k || at2 != at ==> map_slot(set_chunks(m, cs, k, at, item), k2, at2) == map_slot(
            m,
            k2,
            at2,
        ),
{
}

/// Emptying a slot makes it read as empty; every other slot reads as before.
pub proof fn law_slot_after_remove(
    m: Map<ChunkKey, Seq<Option<Tile>>>,
    k: ChunkKey,
    at: int,
    k2: ChunkKey,
    at2: int,
)
    requires
        m.contains_key(k) ==> 0 <= at < m[k].len(),
    ensures
        map_slot(remove_chunks(m, k, at), k, at) is None,
        k2 != k || at2 != at ==> map_slot(remove_chunks(m, k, at), k2, at2) == map_slot(m, k2, at2),
{
}

} // verus!
