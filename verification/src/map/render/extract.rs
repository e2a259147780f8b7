//! What the renderer takes of a tilemap's storage each frame: the tiles and
//! chunks changed since the changes were last cleared, with their contents.

use vstd::prelude::*;

use crate::map::storage::{Chunk, ChunkKey};
use crate::map::tilemap::{FlattenedTileIndex, Tile, TileKey, TilemapStorage};
use crate::math::IVec3;

verus! {

/// The changes of a tilemap's storage: each changed tile with what its slot
/// holds now, and each changed chunk with the chunk there now, if any.
pub struct TilemapChanges {
    pub chunk_size: u32,
    pub changed_tiles: Vec<(FlattenedTileIndex, Option<Tile>)>,
    pub changed_chunks: Vec<(IVec3, Option<Chunk<Tile>>)>,
}

/// The flattened index filed under `k`.
pub open spec fn key_index(k: TileKey) -> FlattenedTileIndex {
    FlattenedTileIndex { chunk_index: IVec3 { x: k.0.0, y: k.0.1, z: k.0.2 }, in_chunk_index: k.1 }
}

/// Every changed tile of `storage` names a slot inside its chunk, where the
/// chunk exists.
pub open spec fn changes_in_bounds(storage: TilemapStorage) -> bool {
    forall|k: TileKey| #[trigger] storage.spec_changed_tiles().contains(k) ==> storage.in_bounds(key_index(k))
}

/// A copy of the slots `v`.
fn copy_slots(v: &Vec<Option<Tile>>) -> (r: Vec<Option<Tile>>)
    ensures
        r@ == v@,
{
    let mut r: Vec<Option<Tile>> = Vec::new();
    let mut i: usize = 0;
    while i < v.len()
        invariant
            i <= v@.len(),
            r@ == v@.take(i as int),
        decreases v@.len() - i,
    {
        r.push(v[i]);
        assert(r@ =~= v@.take(i + 1));
        i = i + 1;
    }
    assert(v@.take(v@.len() as int) =~= v@);
    r
}

/// The changes of `storage`: every changed tile once, with the tile at its
/// index, and every changed chunk once, with the chunk under its index; in
/// the order in which the sets of changes hand them out.
pub fn extract_changes(storage: &TilemapStorage) -> (r: TilemapChanges)
    requires
        changes_in_bounds(*storage),
    ensures
        r.chunk_size == storage.spec_chunk_size(),
        r.changed_tiles@.map_values(|e: (FlattenedTileIndex, Option<Tile>)| e.0.key()).to_set()
            == storage.spec_changed_tiles(),
        r.changed_tiles@.map_values(|e: (FlattenedTileIndex, Option<Tile>)| e.0.key()).no_duplicates(),
        forall|i: int|
            0 <= i < r.changed_tiles@.len() ==> #[trigger] r.changed_tiles@[i].1 == storage.tile_at(
                r.changed_tiles@[i].0,
            ),
        r.changed_chunks@.map_values(|e: (IVec3, Option<Chunk<Tile>>)| e.0.key()).to_set()
            == storage.spec_changed_chunks(),
        r.changed_chunks@.map_values(|e: (IVec3, Option<Chunk<Tile>>)| e.0.key()).no_duplicates(),
        forall|i: int|
            0 <= i < r.changed_chunks@.len() ==> match #[trigger] r.changed_chunks@[i].1 {
                Some(c) => storage.chunks().contains_key(r.changed_chunks@[i].0.key()) && c@
                    == storage.chunks()[r.changed_chunks@[i].0.key()],
                None => !storage.chunks().contains_key(r.changed_chunks@[i].0.key()),
            },
{
    let tile_keys = storage.changed_tiles().to_vec();
    let mut changed_tiles: Vec<(FlattenedTileIndex, Option<Tile>)> = Vec::new();
    let mut i: usize = 0;
    while i < tile_keys.len()
        invariant
            i <= tile_keys@.len(),
            tile_keys@.to_set() == storage.spec_changed_tiles(),
            changes_in_bounds(*storage),
            changed_tiles@.len() == i,
            forall|j: int| 0 <= j < i ==> (#[trigger] changed_tiles@[j]).0.key() == tile_keys@[j],
            forall|j: int|
                0 <= j < i ==> (#[trigger] changed_tiles@[j]).1 == storage.tile_at(changed_tiles@[j].0),
        decreases tile_keys@.len() - i,
    {
        let k = tile_keys[i];
        assert(tile_keys@.to_set().contains(k));
        let index = FlattenedTileIndex { chunk_index: IVec3 { x: k.0.0, y: k.0.1, z: k.0.2 }, in_chunk_index: k.1 };
        assert(index == key_index(k));
        let tile = match storage.flattened_get(index) {
            Some(t) => Some(*t),
            None => None,
        };
        changed_tiles.push((index, tile));
        i = i + 1;
    }
    proof {
        assert(changed_tiles@.map_values(|e: (FlattenedTileIndex, Option<Tile>)| e.0.key()) =~= tile_keys@);
    }
    let chunk_keys = storage.changed_chunks().to_vec();
    let mut changed_chunks: Vec<(IVec3, Option<Chunk<Tile>>)> = Vec::new();
    let mut j: usize = 0;
    while j < chunk_keys.len()
        invariant
            j <= chunk_keys@.len(),
            changed_chunks@.len() == j,
            forall|m: int| 0 <= m < j ==> (#[trigger] changed_chunks@[m]).0.key() == chunk_keys@[m],
            forall|m: int|
                0 <= m < j ==> match #[trigger] changed_chunks@[m].1 {
                    Some(c) => storage.chunks().contains_key(changed_chunks@[m].0.key()) && c@
                        == storage.chunks()[changed_chunks@[m].0.key()],
                    None => !storage.chunks().contains_key(changed_chunks@[m].0.key()),
                },
        decreases chunk_keys@.len() - j,
    {
        let k = chunk_keys[j];
        let index = IVec3 { x: k.0, y: k.1, z: k.2 };
        assert(index.key() == k);
        let chunk = match storage.get_chunk(index) {
            Some(c) => Some(Chunk::from_vec(copy_slots(&c.0))),
            None => None,
        };
        changed_chunks.push((index, chunk));
        j = j + 1;
    }
    proof {
        assert(changed_chunks@.map_values(|e: (IVec3, Option<Chunk<Tile>>)| e.0.key()) =~= chunk_keys@);
    }
    TilemapChanges { chunk_size: storage.chunk_size(), changed_tiles, changed_chunks }
}

/// Marks a tilemap that is rendered this frame.
pub struct TilemapRenderer;

/// Whether an entity is shown: of its own accord, hidden, or as its parent.
#[derive(Debug, Clone, Copy, PartialEq, Eq, Structural)]
pub enum VisibilityKind {
    Inherited,
    Hidden,
    Visible,
}

/// Whether a tilemap is rendered: where it is visible, or where it inherits
/// its visibility and its parents are visible.
pub fn is_rendered(visibility: VisibilityKind, inherited_visible: bool) -> (r: bool)
    ensures
        r == match visibility {
            VisibilityKind::Inherited => inherited_visible,
            VisibilityKind::Hidden => false,
            VisibilityKind::Visible => true,
        },
{
    match visibility {
        VisibilityKind::Inherited => inherited_visible,
        VisibilityKind::Hidden => false,
        VisibilityKind::Visible => true,
    }
}

} // verus!
