//! The binary form in which a tilemap is saved, and the conversions between
//! it and the tilemap's parts.

use vstd::prelude::*;

use crate::map::render::extract::VisibilityKind;
use crate::map::storage::{Chunk, ChunkKey, ChunkedStorage, map_slot};
use crate::map::tilemap::{
    ColorBits, FilterMode, FlattenedTileIndex, Tile, TileAnimation, TileAtlasIndex, TileFlip,
    TileIndex, TileRenderSize, TileStaticAtlas, TilemapAnimations, TilemapStorage, TilemapTexture,
    TilemapTextureDescriptor, TilemapTilesets, TilemapTint,
};
use crate::math::{IVec3, UVec2};
use vstd::string::StrSliceExecFns;
use vstd::string::StringExecFns;

verus! {

#[derive(Debug, Clone, Copy, PartialEq, Eq, Structural)]
pub enum BinaryAtlasIndex {
    Static { texture: u32, atlas: u32, flip: u32 },
    Animated { start: usize, len: usize, offset_milisec: u32 },
}

#[derive(Debug)]
pub struct BinaryTilesets {
    pub size: (u32, u32),
    pub filter_mode: u32,
    /// Each texture's asset path, size and tile size.
    pub textures: Vec<(String, (u32, u32), (u32, u32))>,
}

#[derive(Debug, Clone, Copy)]
pub struct BinaryTile {
    /// The direct index, then the chunk and the slot of the flattened index.
    pub indices: ((i32, i32, i32), ((i32, i32, i32), usize)),
    pub atlas: BinaryAtlasIndex,
    /// The bit patterns of the linear RGBA tint.
    pub tint: (u32, u32, u32, u32),
    pub visible: bool,
}

#[derive(Debug)]
pub struct BinaryTilemap {
    pub version: u32,
    pub target_body: usize,
    pub tile_render_size: (u32, u32),
    pub chunk_size: u32,
    pub storgae: Vec<((i32, i32, i32), Vec<Option<BinaryTile>>)>,
    pub tint: (u32, u32, u32, u32),
    pub tilesets: BinaryTilesets,
    pub animations: Vec<u32>,
}

pub open spec fn spec_atlas_to_binary(a: TileAtlasIndex) -> BinaryAtlasIndex {
    match a {
        TileAtlasIndex::Static(s) => BinaryAtlasIndex::Static {
            texture: s.texture,
            atlas: s.atlas,
            flip: s.flip@,
        },
        TileAtlasIndex::Animated { anim, offset_milisec } => BinaryAtlasIndex::Animated {
            start: anim@.0,
            len: anim@.1,
            offset_milisec,
        },
    }
}

pub open spec fn spec_atlas_from_binary(b: BinaryAtlasIndex) -> TileAtlasIndex {
    match b {
        BinaryAtlasIndex::Static { texture, atlas, flip } => TileAtlasIndex::Static(
            TileStaticAtlas { texture, atlas, flip: TileFlip::spec_with_bits(flip) },
        ),
        BinaryAtlasIndex::Animated { start, len, offset_milisec } => TileAtlasIndex::Animated {
            anim: TileAnimation::spec_new(start, len),
            offset_milisec,
        },
    }
}

/// A saved atlas index can be loaded: a static one's flip has no bit outside `0b11`.
pub open spec fn binary_atlas_ok(b: BinaryAtlasIndex) -> bool {
    match b {
        BinaryAtlasIndex::Static { flip, .. } => flip <= 3,
        BinaryAtlasIndex::Animated { .. } => true,
    }
}

pub fn atlas_to_binary(a: &TileAtlasIndex) -> (r: BinaryAtlasIndex)
    ensures
        r == spec_atlas_to_binary(*a),
        binary_atlas_ok(r),
        atlas_valid(*a),
{
    match a {
        TileAtlasIndex::Static(s) => BinaryAtlasIndex::Static {
            texture: s.texture,
            atlas: s.atlas,
            flip: s.flip.bits(),
        },
        TileAtlasIndex::Animated { anim, offset_milisec } => BinaryAtlasIndex::Animated {
            start: anim.start(),
            len: anim.len(),
            offset_milisec: *offset_milisec,
        },
    }
}

pub fn atlas_from_binary(b: &BinaryAtlasIndex) -> (r: TileAtlasIndex)
    requires
        binary_atlas_ok(*b),
    ensures
        r == spec_atlas_from_binary(*b),
{
    match b {
        BinaryAtlasIndex::Static { texture, atlas, flip } => TileAtlasIndex::Static(
            TileStaticAtlas { texture: *texture, atlas: *atlas, flip: TileFlip::from_bits(*flip).unwrap() },
        ),
        BinaryAtlasIndex::Animated { start, len, offset_milisec } => TileAtlasIndex::Animated {
            anim: TileAnimation::new(*start, *len),
            offset_milisec: *offset_milisec,
        },
    }
}

pub open spec fn spec_tile_to_binary(t: Tile) -> BinaryTile {
    BinaryTile {
        indices: (
            t.index.spec_direct().key(),
            (t.index.spec_flattend().chunk_index.key(), t.index.spec_flattend().in_chunk_index),
        ),
        atlas: spec_atlas_to_binary(t.atlas_index),
        tint: (t.tint.red, t.tint.green, t.tint.blue, t.tint.alpha),
        visible: t.visible,
    }
}

pub open spec fn spec_tile_from_binary(b: BinaryTile) -> Tile {
    Tile {
        index: TileIndex::spec_from_parts(
            IVec3::from_key(b.indices.0),
            FlattenedTileIndex {
                chunk_index: IVec3::from_key(b.indices.1.0),
                in_chunk_index: b.indices.1.1,
            },
        ),
        atlas_index: spec_atlas_from_binary(b.atlas),
        tint: ColorBits { red: b.tint.0, green: b.tint.1, blue: b.tint.2, alpha: b.tint.3 },
        visible: b.visible,
    }
}

pub fn tile_to_binary(t: &Tile) -> (r: BinaryTile)
    ensures
        r == spec_tile_to_binary(*t),
        binary_atlas_ok(r.atlas),
        atlas_valid(t.atlas_index),
{
    let d = t.index.direct();
    let f = t.index.flattend();
    BinaryTile {
        indices: (d.to_key(), (f.chunk_index.to_key(), f.in_chunk_index)),
        atlas: atlas_to_binary(&t.atlas_index),
        tint: (t.tint.red, t.tint.green, t.tint.blue, t.tint.alpha),
        visible: t.visible,
    }
}

pub fn tile_from_binary(b: &BinaryTile) -> (r: Tile)
    requires
        binary_atlas_ok(b.atlas),
    ensures
        r == spec_tile_from_binary(*b),
{
    let (d, (c, at)) = b.indices;
    Tile {
        index: TileIndex::from_parts(
            IVec3 { x: d.0, y: d.1, z: d.2 },
            FlattenedTileIndex { chunk_index: IVec3 { x: c.0, y: c.1, z: c.2 }, in_chunk_index: at },
        ),
        atlas_index: atlas_from_binary(&b.atlas),
        tint: ColorBits { red: b.tint.0, green: b.tint.1, blue: b.tint.2, alpha: b.tint.3 },
        visible: b.visible,
    }
}

/// A tile is saved as its direct index `(x, y, z)`, then its chunk
/// `(x, y, z)` and slot; its atlas as texture, atlas and flip bits (static)
/// or start, frame count and offset (animated); its tint as red, green, blue
/// and alpha; and whether it is visible.
pub proof fn law_tile_saved_form(t: Tile)
    ensures
        ({
            let b = spec_tile_to_binary(t);
            let d = t.index.spec_direct();
            let f = t.index.spec_flattend();
            &&& b.indices == ((d.x, d.y, d.z), ((f.chunk_index.x, f.chunk_index.y, f.chunk_index.z), f.in_chunk_index))
            &&& b.tint == (t.tint.red, t.tint.green, t.tint.blue, t.tint.alpha)
            &&& b.visible == t.visible
            &&& t.atlas_index matches TileAtlasIndex::Static(s) ==> b.atlas == (BinaryAtlasIndex::Static {
                texture: s.texture,
                atlas: s.atlas,
                flip: s.flip@,
            })
            &&& t.atlas_index matches TileAtlasIndex::Animated { anim, offset_milisec } ==> b.atlas == (
            BinaryAtlasIndex::Animated { start: anim@.0, len: anim@.1, offset_milisec })
        }),
{
}

/// A valid atlas index: a static one's flip has no bit outside `0b11`, as
/// every [`TileFlip`] keeps.
pub open spec fn atlas_valid(a: TileAtlasIndex) -> bool {
    match a {
        TileAtlasIndex::Static(s) => s.flip@ <= 3,
        TileAtlasIndex::Animated { .. } => true,
    }
}

/// Loading a saved tile gives the tile back; a tile whose atlas is valid
/// (as every tile value is, its flip keeping no bit outside `0b11`) is saved
/// in a form that can be loaded.
pub proof fn law_tile_roundtrip(t: Tile)
    ensures
        atlas_valid(t.atlas_index) ==> binary_atlas_ok(spec_tile_to_binary(t).atlas),
        spec_tile_from_binary(spec_tile_to_binary(t)) == t,
{
    t.index.lemma_parts(t.index.spec_direct(), t.index.spec_flattend());
    match t.atlas_index {
        TileAtlasIndex::Static(s) => {
            s.flip.lemma_with_bits(s.flip@);
        },
        TileAtlasIndex::Animated { anim, offset_milisec } => {
            anim.lemma_new(anim@.0, anim@.1);
        },
    }
}

pub open spec fn spec_slot_to_binary(o: Option<Tile>) -> Option<BinaryTile> {
    match o {
        Some(t) => Some(spec_tile_to_binary(t)),
        None => None,
    }
}

pub open spec fn spec_slot_from_binary(o: Option<BinaryTile>) -> Option<Tile> {
    match o {
        Some(b) => Some(spec_tile_from_binary(b)),
        None => None,
    }
}

pub open spec fn spec_slots_to_binary(slots: Seq<Option<Tile>>) -> Seq<Option<BinaryTile>> {
    Seq::new(slots.len(), |i: int| spec_slot_to_binary(slots[i]))
}

pub open spec fn spec_slots_from_binary(slots: Seq<Option<BinaryTile>>) -> Seq<Option<Tile>> {
    Seq::new(slots.len(), |i: int| spec_slot_from_binary(slots[i]))
}

/// Every tile in `slots` can be loaded.
pub open spec fn binary_slots_ok(slots: Seq<Option<BinaryTile>>) -> bool {
    forall|i: int| 0 <= i < slots.len() ==> (#[trigger] slots[i] matches Some(b) ==> binary_atlas_ok(b.atlas))
}

/// `entries` describe `chunks`: each chunk once, as saved tiles, in some order.
pub open spec fn entries_describe(
    entries: Seq<(ChunkKey, Seq<Option<BinaryTile>>)>,
    chunks: Map<ChunkKey, Seq<Option<Tile>>>,
) -> bool {
    &&& forall|i: int|
        0 <= i < entries.len() ==> chunks.contains_key(#[trigger] entries[i].0) && entries[i].1
            == spec_slots_to_binary(chunks[entries[i].0])
    &&& forall|k: ChunkKey| chunks.contains_key(k) ==> exists|i: int| 0 <= i < entries.len() && #[trigger] entries[i].0 == k
    &&& forall|i: int, j: int| 0 <= i < j < entries.len() ==> #[trigger] entries[i].0 != #[trigger] entries[j].0
}

/// The chunks that loading `entries` in order gives: a later entry for a key
/// replaces an earlier one.
pub open spec fn insert_all(entries: Seq<(ChunkKey, Seq<Option<BinaryTile>>)>) -> Map<ChunkKey, Seq<Option<Tile>>>
    decreases entries.len(),
{
    if entries.len() == 0 {
        Map::empty()
    } else {
        insert_all(entries.drop_last()).insert(
            entries.last().0,
            spec_slots_from_binary(entries.last().1),
        )
    }
}

/// The slots of a chunk as they are saved.
pub fn chunk_to_binary(c: &Chunk<Tile>) -> (r: Vec<Option<BinaryTile>>)
    ensures
        r@ == spec_slots_to_binary(c@),
        binary_slots_ok(r@),
{
    let mut r: Vec<Option<BinaryTile>> = Vec::new();
    let mut i: usize = 0;
    while i < c.0.len()
        invariant
            i <= c@.len(),
            r@ == spec_slots_to_binary(c@.take(i as int)),
            binary_slots_ok(r@),
        decreases c@.len() - i,
    {
        let b = match &c.0[i] {
            Some(t) => {
                Some(tile_to_binary(t))
            },
            None => None,
        };
        let ghost before = r@;
        r.push(b);
        proof {
            assert(r@ =~= spec_slots_to_binary(c@.take(i + 1)));
            assert forall|j: int| 0 <= j < r@.len() implies (#[trigger] r@[j] matches Some(x)
                ==> binary_atlas_ok(x.atlas)) by {
                if j < before.len() {
                    assert(r@[j] == before[j]);
                }
            }
        }
        i = i + 1;
    }
    proof {
        assert(c@.take(c@.len() as int) =~= c@);
    }
    r
}

/// The chunk that saved slots load into.
pub fn chunk_from_binary(v: &Vec<Option<BinaryTile>>) -> (r: Chunk<Tile>)
    requires
        binary_slots_ok(v@),
    ensures
        r@ == spec_slots_from_binary(v@),
{
    let mut slots: Vec<Option<Tile>> = Vec::new();
    let mut i: usize = 0;
    while i < v.len()
        invariant
            i <= v@.len(),
            binary_slots_ok(v@),
            slots@ == spec_slots_from_binary(v@.take(i as int)),
        decreases v@.len() - i,
    {
        let t = match &v[i] {
            Some(b) => {
                assert(v@[i as int] matches Some(x) ==> binary_atlas_ok(x.atlas));
                Some(tile_from_binary(b))
            },
            None => None,
        };
        slots.push(t);
        assert(slots@ =~= spec_slots_from_binary(v@.take(i + 1)));
        i = i + 1;
    }
    assert(v@.take(v@.len() as int) =~= v@);
    Chunk::from_vec(slots)
}

/// The chunks of `storage` as they are saved: each chunk once, in the order
/// in which its hash map hands them out.
pub fn storage_to_binary(storage: &TilemapStorage) -> (r: Vec<((i32, i32, i32), Vec<Option<BinaryTile>>)>)
    ensures
        entries_describe(r@.map_values(|e: ((i32, i32, i32), Vec<Option<BinaryTile>>)| (e.0, e.1@)), storage.chunks()),
        forall|i: int| 0 <= i < r@.len() ==> binary_slots_ok(#[trigger] r@[i].1@),
{
    let keys = storage.chunk_keys();
    let mut r: Vec<((i32, i32, i32), Vec<Option<BinaryTile>>)> = Vec::new();
    let mut i: usize = 0;
    while i < keys.len()
        invariant
            i <= keys@.len(),
            keys@.to_set() == storage.chunks().dom(),
            keys@.no_duplicates(),
            r@.len() == i,
            forall|j: int| 0 <= j < i ==> #[trigger] r@[j].0 == keys@[j],
            forall|j: int|
                0 <= j < i ==> storage.chunks().contains_key(#[trigger] r@[j].0) && r@[j].1@
                    == spec_slots_to_binary(storage.chunks()[r@[j].0]),
            forall|j: int| 0 <= j < i ==> binary_slots_ok(#[trigger] r@[j].1@),
        decreases keys@.len() - i,
    {
        let k = keys[i];
        assert(keys@.to_set().contains(keys@[i as int]));
        let c = storage.get_chunk(IVec3 { x: k.0, y: k.1, z: k.2 });
        assert(IVec3 { x: k.0, y: k.1, z: k.2 }.key() == k);
        let slots = chunk_to_binary(c.unwrap());
        let ghost before = r@;
        r.push((k, slots));
        proof {
            assert forall|j: int| 0 <= j < i + 1 implies binary_slots_ok(#[trigger] r@[j].1@) by {
                if j < i {
                    assert(r@[j] == before[j]);
                }
            }
        }
        i = i + 1;
    }
    let ghost m = r@.map_values(|e: ((i32, i32, i32), Vec<Option<BinaryTile>>)| (e.0, e.1@));
    proof {
        assert forall|k: ChunkKey| storage.chunks().contains_key(k) implies exists|i: int|
            0 <= i < m.len() && #[trigger] m[i].0 == k by {
            assert(keys@.to_set().contains(k));
            let i = choose|i: int| 0 <= i < keys@.len() && keys@[i] == k;
            assert(m[i].0 == k);
        }
        assert forall|i: int, j: int| 0 <= i < j < m.len() implies #[trigger] m[i].0 != #[trigger] m[j].0 by {
            assert(m[i].0 == keys@[i]);
            assert(m[j].0 == keys@[j]);
        }
    }
    r
}

/// A storage of chunk size `chunk_size` holding the saved chunks; a later
/// entry for a key replaces an earlier one, and no change is recorded.
pub fn storage_from_binary(chunk_size: u32, entries: &Vec<((i32, i32, i32), Vec<Option<BinaryTile>>)>) -> (r: TilemapStorage)
    requires
        forall|i: int| 0 <= i < entries@.len() ==> binary_slots_ok(#[trigger] entries@[i].1@),
    ensures
        r.spec_chunk_size() == chunk_size,
        r.chunks() == insert_all(entries@.map_values(|e: ((i32, i32, i32), Vec<Option<BinaryTile>>)| (e.0, e.1@))),
        r.spec_changed_tiles().is_empty(),
        r.spec_changed_chunks().is_empty(),
{
    let ghost m = entries@.map_values(|e: ((i32, i32, i32), Vec<Option<BinaryTile>>)| (e.0, e.1@));
    let mut internal = ChunkedStorage::new(chunk_size);
    let mut i: usize = 0;
    while i < entries.len()
        invariant
            i <= entries@.len(),
            m == entries@.map_values(|e: ((i32, i32, i32), Vec<Option<BinaryTile>>)| (e.0, e.1@)),
            forall|j: int| 0 <= j < entries@.len() ==> binary_slots_ok(#[trigger] entries@[j].1@),
            internal.spec_chunk_size() == chunk_size,
            internal.chunks() == insert_all(m.take(i as int)),
        decreases entries@.len() - i,
    {
        let (k, slots) = &entries[i];
        let chunk = chunk_from_binary(slots);
        internal.set_chunk(&IVec3 { x: k.0, y: k.1, z: k.2 }, chunk);
        proof {
            assert(m.take(i + 1).drop_last() =~= m.take(i as int));
            assert(m.take(i + 1).last() == m[i as int]);
        }
        i = i + 1;
    }
    proof {
        assert(m.take(m.len() as int) =~= m);
    }
    TilemapStorage::from_storage(internal)
}

proof fn lemma_slots_roundtrip(slots: Seq<Option<Tile>>)
    ensures
        spec_slots_from_binary(spec_slots_to_binary(slots)) == slots,
{
    assert forall|i: int| 0 <= i < slots.len() implies spec_slot_from_binary(
        spec_slot_to_binary(slots[i]),
    ) == slots[i] by {
        if let Some(t) = slots[i] {
            law_tile_roundtrip(t);
        }
    }
    assert(spec_slots_from_binary(spec_slots_to_binary(slots)) =~= slots);
}

proof fn lemma_insert_all_prefix(
    entries: Seq<(ChunkKey, Seq<Option<BinaryTile>>)>,
    chunks: Map<ChunkKey, Seq<Option<Tile>>>,
    n: int,
)
    requires
        0 <= n <= entries.len(),
        entries_describe(entries, chunks),
    ensures
        forall|k: ChunkKey|
            #[trigger] insert_all(entries.take(n)).contains_key(k) <==> exists|i: int| 0 <= i < n && entries[i].0 == k,
        forall|k: ChunkKey| #[trigger] insert_all(entries.take(n)).contains_key(k) ==> insert_all(entries.take(n))[k] == chunks[k],
    decreases n,
{
    if n > 0 {
        lemma_insert_all_prefix(entries, chunks, n - 1);
        assert(entries.take(n).drop_last() =~= entries.take(n - 1));
        let e = entries[n - 1];
        assert(chunks.contains_key(e.0));
        lemma_slots_roundtrip(chunks[e.0]);
        assert(insert_all(entries.take(n)) == insert_all(entries.take(n - 1)).insert(
            e.0,
            spec_slots_from_binary(e.1),
        ));
        assert forall|k: ChunkKey| #[trigger] insert_all(entries.take(n)).contains_key(k) implies insert_all(
            entries.take(n),
        )[k] == chunks[k] by {
            if k != e.0 {
                assert(insert_all(entries.take(n - 1)).contains_key(k));
            }
        }
        assert forall|k: ChunkKey| #[trigger] insert_all(entries.take(n)).contains_key(k) <==> exists|i: int|
            0 <= i < n && entries[i].0 == k by {
            if insert_all(entries.take(n)).contains_key(k) && k != e.0 {
                assert(insert_all(entries.take(n - 1)).contains_key(k));
                let i = choose|i: int| 0 <= i < n - 1 && entries[i].0 == k;
                assert(0 <= i < n && entries[i].0 == k);
            }
            if exists|i: int| 0 <= i < n && entries[i].0 == k {
                let i = choose|i: int| 0 <= i < n && entries[i].0 == k;
                if i < n - 1 {
                    assert(insert_all(entries.take(n - 1)).contains_key(k));
                }
            }
        }
    } else {
        assert(entries.take(0) =~= Seq::<(ChunkKey, Seq<Option<BinaryTile>>)>::empty());
    }
}

/// Loading the saved chunks of a storage gives its chunks back.
pub proof fn law_storage_roundtrip(
    entries: Seq<(ChunkKey, Seq<Option<BinaryTile>>)>,
    chunks: Map<ChunkKey, Seq<Option<Tile>>>,
)
    requires
        entries_describe(entries, chunks),
    ensures
        insert_all(entries) == chunks,
{
    lemma_insert_all_prefix(entries, chunks, entries.len() as int);
    assert(entries.take(entries.len() as int) =~= entries);
    let m = insert_all(entries);
    assert forall|k: ChunkKey| m.contains_key(k) <==> chunks.contains_key(k) by {
        if chunks.contains_key(k) {
            let i = choose|i: int| 0 <= i < entries.len() && #[trigger] entries[i].0 == k;
            assert(0 <= i < entries.len() && entries[i].0 == k);
        }
        if m.contains_key(k) {
            let i = choose|i: int| 0 <= i < entries.len() && entries[i].0 == k;
            assert(chunks.contains_key(entries[i].0));
        }
    }
    assert(m =~= chunks);
}

/// The number under which a filter mode is saved.
pub open spec fn spec_filter_mode_code(m: FilterMode) -> u32 {
    match m {
        FilterMode::Nearest => 0,
        FilterMode::Linear => 1,
    }
}

pub fn filter_mode_to_code(m: FilterMode) -> (r: u32)
    ensures
        r == spec_filter_mode_code(m),
{
    match m {
        FilterMode::Nearest => 0,
        FilterMode::Linear => 1,
    }
}

/// The filter mode saved as `code`, which must be `0` or `1`.
pub fn filter_mode_from_code(code: u32) -> (r: FilterMode)
    requires
        code <= 1,
    ensures
        spec_filter_mode_code(r) == code,
{
    if code == 0 {
        FilterMode::Nearest
    } else {
        FilterMode::Linear
    }
}

/// A texture as it is saved: its path, its size and its tile size.
pub open spec fn spec_texture_to_binary(t: TilemapTexture) -> (Seq<char>, (u32, u32), (u32, u32)) {
    (t.handle@, (t.desc.size.x, t.desc.size.y), (t.desc.tile_size.x, t.desc.tile_size.y))
}

/// A saved texture is its path, then its size (width, height), then the
/// size of its tiles (width, height), in that order; and two textures saved
/// alike are the same texture.
pub proof fn law_texture_saved_as_path_size_tile_size(t: TilemapTexture, u: TilemapTexture)
    ensures
        spec_texture_to_binary(t).0 == t.handle@,
        spec_texture_to_binary(t).1 == (t.desc.size.x, t.desc.size.y),
        spec_texture_to_binary(t).2 == (t.desc.tile_size.x, t.desc.tile_size.y),
        spec_texture_to_binary(t) == spec_texture_to_binary(u) ==> t.handle@ == u.handle@ && t.desc == u.desc,
{
}

/// The tilesets as they are saved.
pub fn tilesets_to_binary(t: &TilemapTilesets) -> (r: BinaryTilesets)
    ensures
        r.size == (t.spec_size().x, t.spec_size().y),
        r.filter_mode == spec_filter_mode_code(t.spec_filter_mode()),
        r.textures@.len() == t.spec_textures().len(),
        forall|i: int|
            0 <= i < r.textures@.len() ==> (#[trigger] r.textures@[i].0@, r.textures@[i].1, r.textures@[i].2)
                == spec_texture_to_binary(t.spec_textures()[i]),
        forall|i: int|
            0 <= i < r.textures@.len() ==> {
                &&& (#[trigger] r.textures@[i]).0@ == t.spec_textures()[i].handle@
                &&& r.textures@[i].1 == (t.spec_textures()[i].desc.size.x, t.spec_textures()[i].desc.size.y)
                &&& r.textures@[i].2 == (
                    t.spec_textures()[i].desc.tile_size.x,
                    t.spec_textures()[i].desc.tile_size.y,
                )
            },
{
    let size = t.size();
    let textures = t.textures();
    let mut out: Vec<(String, (u32, u32), (u32, u32))> = Vec::new();
    let mut i: usize = 0;
    while i < textures.len()
        invariant
            i <= textures@.len(),
            textures@ == t.spec_textures(),
            out@.len() == i,
            forall|j: int|
                0 <= j < i ==> (#[trigger] out@[j].0@, out@[j].1, out@[j].2) == spec_texture_to_binary(
                    textures@[j],
                ),
        decreases textures@.len() - i,
    {
        let tex = &textures[i];
        out.push((
            tex.handle.clone(),
            (tex.desc.size.x, tex.desc.size.y),
            (tex.desc.tile_size.x, tex.desc.tile_size.y),
        ));
        i = i + 1;
    }
    BinaryTilesets {
        size: (size.x, size.y),
        filter_mode: filter_mode_to_code(t.filter_mode()),
        textures: out,
    }
}

/// The tilesets that saved tilesets load into; the filter mode must be saved as `0` or `1`.
pub fn tilesets_from_binary(b: BinaryTilesets) -> (r: TilemapTilesets)
    requires
        b.filter_mode <= 1,
    ensures
        r.spec_size() == (UVec2 { x: b.size.0, y: b.size.1 }),
        spec_filter_mode_code(r.spec_filter_mode()) == b.filter_mode,
        r.spec_textures().len() == b.textures@.len(),
        forall|i: int|
            0 <= i < b.textures@.len() ==> spec_texture_to_binary(#[trigger] r.spec_textures()[i]) == (
                b.textures@[i].0@,
                b.textures@[i].1,
                b.textures@[i].2,
            ),
        forall|i: int|
            0 <= i < b.textures@.len() ==> {
                &&& (#[trigger] r.spec_textures()[i]).handle@ == b.textures@[i].0@
                &&& r.spec_textures()[i].desc.size == (UVec2 { x: b.textures@[i].1.0, y: b.textures@[i].1.1 })
                &&& r.spec_textures()[i].desc.tile_size == (UVec2 { x: b.textures@[i].2.0, y: b.textures@[i].2.1 })
            },
{
    let BinaryTilesets { size, filter_mode, textures } = b;
    let ghost src = textures@;
    let mut textures = textures;
    let mut out: Vec<TilemapTexture> = Vec::new();
    let n = textures.len();
    let mut i: usize = 0;
    while i < n
        invariant
            i <= n,
            n == src.len(),
            textures@.len() == n,
            forall|j: int| i <= j < n ==> #[trigger] textures@[j] == src[j],
            out@.len() == i,
            forall|j: int|
                0 <= j < i ==> spec_texture_to_binary(#[trigger] out@[j]) == (src[j].0@, src[j].1, src[j].2),
        decreases n - i,
    {
        let mut entry = (String::new(), (0u32, 0u32), (0u32, 0u32));
        std::mem::swap(&mut entry, &mut textures[i]);
        let (path, s, ts) = entry;
        out.push(TilemapTexture {
            handle: path,
            desc: TilemapTextureDescriptor { size: UVec2 { x: s.0, y: s.1 }, tile_size: UVec2 { x: ts.0, y: ts.1 } },
        });
        i = i + 1;
    }
    TilemapTilesets::from_parts(UVec2 { x: size.0, y: size.1 }, filter_mode_from_code(filter_mode), out)
}

/// The parts of a tilemap entity.
pub struct TilemapBundle {
    pub tile_render_size: TileRenderSize,
    pub storgae: TilemapStorage,
    pub tint: TilemapTint,
    pub tilesets: TilemapTilesets,
    pub animations: TilemapAnimations,
    pub visibility: VisibilityKind,
}

/// `r` is the tilemap of body `target_body` as it is saved under format
/// `version`: its parts one for one, each chunk once (in some order) with its
/// tiles in the saved form, every saved tile loadable.
pub open spec fn saved_as(
    version: u32,
    target_body: usize,
    tile_render_size: TileRenderSize,
    storage: TilemapStorage,
    tint: TilemapTint,
    tilesets: TilemapTilesets,
    animations: TilemapAnimations,
    r: BinaryTilemap,
) -> bool {
    &&& r.version == version
    &&& r.target_body == target_body
    &&& r.tile_render_size == (tile_render_size.x, tile_render_size.y)
    &&& r.chunk_size == storage.spec_chunk_size()
    &&& entries_describe(
        r.storgae@.map_values(|e: ((i32, i32, i32), Vec<Option<BinaryTile>>)| (e.0, e.1@)),
        storage.chunks(),
    )
    &&& forall|i: int| 0 <= i < r.storgae@.len() ==> binary_slots_ok(#[trigger] r.storgae@[i].1@)
    &&& r.tint == (tint.0.red, tint.0.green, tint.0.blue, tint.0.alpha)
    &&& r.tilesets.size == (tilesets.spec_size().x, tilesets.spec_size().y)
    &&& r.tilesets.filter_mode == spec_filter_mode_code(tilesets.spec_filter_mode())
    &&& r.tilesets.textures@.len() == tilesets.spec_textures().len()
    &&& forall|i: int|
        0 <= i < r.tilesets.textures@.len() ==> (
            #[trigger] r.tilesets.textures@[i].0@,
            r.tilesets.textures@[i].1,
            r.tilesets.textures@[i].2,
        ) == spec_texture_to_binary(tilesets.spec_textures()[i])
    &&& r.animations@ == animations@
}

/// `r` is what the saved tilemap `b` loads into: its parts one for one, the
/// chunks those that loading its entries in order gives, no change recorded,
/// and visibility inherited.
pub open spec fn loaded_from(b: BinaryTilemap, r: TilemapBundle) -> bool {
    &&& r.tile_render_size == (TileRenderSize { x: b.tile_render_size.0, y: b.tile_render_size.1 })
    &&& r.storgae.spec_chunk_size() == b.chunk_size
    &&& r.storgae.chunks() == insert_all(
        b.storgae@.map_values(|e: ((i32, i32, i32), Vec<Option<BinaryTile>>)| (e.0, e.1@)),
    )
    &&& r.storgae.spec_changed_tiles().is_empty()
    &&& r.storgae.spec_changed_chunks().is_empty()
    &&& r.tint.0 == (ColorBits { red: b.tint.0, green: b.tint.1, blue: b.tint.2, alpha: b.tint.3 })
    &&& r.tilesets.spec_size() == (UVec2 { x: b.tilesets.size.0, y: b.tilesets.size.1 })
    &&& spec_filter_mode_code(r.tilesets.spec_filter_mode()) == b.tilesets.filter_mode
    &&& r.tilesets.spec_textures().len() == b.tilesets.textures@.len()
    &&& forall|i: int|
        0 <= i < b.tilesets.textures@.len() ==> spec_texture_to_binary(
            #[trigger] r.tilesets.spec_textures()[i],
        ) == (b.tilesets.textures@[i].0@, b.tilesets.textures@[i].1, b.tilesets.textures@[i].2)
    &&& r.animations@ == b.animations@
    &&& r.visibility == VisibilityKind::Inherited
}

/// A saved tilemap can be loaded, and loading it gives the tilemap back:
/// the same render size, chunk size, chunks (every tile as it was, every
/// empty slot empty), tint, tileset size, filter mode, textures and
/// animation words.
pub proof fn law_tilemap_roundtrip(
    version: u32,
    target_body: usize,
    tile_render_size: TileRenderSize,
    storage: TilemapStorage,
    tint: TilemapTint,
    tilesets: TilemapTilesets,
    animations: TilemapAnimations,
    b: BinaryTilemap,
    r: TilemapBundle,
)
    requires
        saved_as(version, target_body, tile_render_size, storage, tint, tilesets, animations, b),
    ensures
        binary_tilemap_ok(b),
        loaded_from(b, r) ==> {
            &&& r.tile_render_size == tile_render_size
            &&& r.storgae.spec_chunk_size() == storage.spec_chunk_size()
            &&& r.storgae.chunks() == storage.chunks()
            &&& r.tint.0 == tint.0
            &&& r.tilesets.spec_size() == tilesets.spec_size()
            &&& r.tilesets.spec_filter_mode() == tilesets.spec_filter_mode()
            &&& r.tilesets.spec_textures().len() == tilesets.spec_textures().len()
            &&& forall|i: int|
                0 <= i < tilesets.spec_textures().len() ==> spec_texture_to_binary(
                    #[trigger] r.tilesets.spec_textures()[i],
                ) == spec_texture_to_binary(tilesets.spec_textures()[i])
            &&& r.animations@ == animations@
        },
{
    law_storage_roundtrip(
        b.storgae@.map_values(|e: ((i32, i32, i32), Vec<Option<BinaryTile>>)| (e.0, e.1@)),
        storage.chunks(),
    );
    assert(b.tilesets.filter_mode <= 1);
    if loaded_from(b, r) {
        assert(r.tilesets.spec_filter_mode() == tilesets.spec_filter_mode());
        assert forall|i: int|
            0 <= i < tilesets.spec_textures().len() implies spec_texture_to_binary(
                #[trigger] r.tilesets.spec_textures()[i],
            ) == spec_texture_to_binary(tilesets.spec_textures()[i]) by {
            assert(spec_texture_to_binary(r.tilesets.spec_textures()[i]) == (
                b.tilesets.textures@[i].0@,
                b.tilesets.textures@[i].1,
                b.tilesets.textures@[i].2,
            ));
        }
    }
}

/// The tilemap of body `target_body` as it is saved, under format `version`.
pub fn tilemap_to_binary(
    version: u32,
    target_body: usize,
    tile_render_size: &TileRenderSize,
    storage: &TilemapStorage,
    tint: &TilemapTint,
    tilesets: &TilemapTilesets,
    animations: &TilemapAnimations,
) -> (r: BinaryTilemap)
    ensures
        saved_as(version, target_body, *tile_render_size, *storage, *tint, *tilesets, *animations, r),
{
    let words = animations.bytes();
    let mut anim_copy: Vec<u32> = Vec::new();
    let mut i: usize = 0;
    while i < words.len()
        invariant
            i <= words@.len(),
            anim_copy@ == words@.take(i as int),
        decreases words@.len() - i,
    {
        anim_copy.push(words[i]);
        assert(anim_copy@ =~= words@.take(i + 1));
        i = i + 1;
    }
    assert(words@.take(words@.len() as int) =~= words@);
    BinaryTilemap {
        version,
        target_body,
        tile_render_size: (tile_render_size.x, tile_render_size.y),
        chunk_size: storage.chunk_size(),
        storgae: storage_to_binary(storage),
        tint: (tint.0.red, tint.0.green, tint.0.blue, tint.0.alpha),
        tilesets: tilesets_to_binary(tilesets),
        animations: anim_copy,
    }
}

/// A saved tilemap can be loaded: every saved tile's flip has no bit
/// outside `0b11`, and the filter mode is saved as `0` or `1`.
pub open spec fn binary_tilemap_ok(b: BinaryTilemap) -> bool {
    &&& forall|i: int| 0 <= i < b.storgae@.len() ==> binary_slots_ok(#[trigger] b.storgae@[i].1@)
    &&& b.tilesets.filter_mode <= 1
}

/// The parts of the tilemap that a saved tilemap loads into.
pub fn tilemap_from_binary(b: BinaryTilemap) -> (r: TilemapBundle)
    requires
        binary_tilemap_ok(b),
    ensures
        loaded_from(b, r),
{
    let storage = storage_from_binary(b.chunk_size, &b.storgae);
    let BinaryTilemap { version: _, target_body: _, tile_render_size, chunk_size: _, storgae: _, tint, tilesets, animations } = b;
    TilemapBundle {
        tile_render_size: TileRenderSize { x: tile_render_size.0, y: tile_render_size.1 },
        storgae: storage,
        tint: TilemapTint(ColorBits { red: tint.0, green: tint.1, blue: tint.2, alpha: tint.3 }),
        tilesets: tilesets_from_binary(tilesets),
        animations: TilemapAnimations::from_words(animations),
        visibility: VisibilityKind::Inherited,
    }
}

/// The characters of `s` before its first `.`.
pub open spec fn dot_prefix(s: Seq<char>) -> Seq<char>
    decreases s.len(),
{
    if s.len() == 0 || s[0] == '.' {
        Seq::empty()
    } else {
        seq![s[0]] + dot_prefix(s.drop_first())
    }
}

pub open spec fn is_digit(c: char) -> bool {
    '0' <= c <= '9'
}

/// The number that a sequence of decimal digits writes.
pub open spec fn digits_value(d: Seq<char>) -> nat
    decreases d.len(),
{
    if d.len() == 0 {
        0
    } else {
        digits_value(d.drop_last()) * 10 + (d.last() as nat - '0' as nat) as nat
    }
}

/// The digits of an unsigned number as written: without its optional `+`.
pub open spec fn unsigned_digits(p: Seq<char>) -> Seq<char> {
    if p.len() > 0 && p[0] == '+' {
        p.drop_first()
    } else {
        p
    }
}

/// The number that `d` writes, where it is one or more decimal digits and fits.
pub open spec fn parse_digits(d: Seq<char>) -> Option<u32> {
    if d.len() == 0 || exists|i: int| 0 <= i < d.len() && !is_digit(#[trigger] d[i]) {
        None
    } else if digits_value(d) > u32::MAX {
        None
    } else {
        Some(digits_value(d) as u32)
    }
}

/// What `str::parse::<u32>` gives: an optional `+`, then one or more decimal
/// digits whose number fits; `None` otherwise.
pub open spec fn spec_parse_u32(p: Seq<char>) -> Option<u32> {
    parse_digits(unsigned_digits(p))
}

proof fn lemma_digits_value_prefix(d: Seq<char>, i: int)
    requires
        0 <= i <= d.len(),
        forall|j: int| 0 <= j < d.len() ==> is_digit(#[trigger] d[j]),
    ensures
        digits_value(d.take(i)) <= digits_value(d),
    decreases d.len() - i,
{
    if i < d.len() {
        lemma_digits_value_prefix(d, i + 1);
        assert(d.take(i + 1).drop_last() =~= d.take(i));
        assert(d.take(i + 1).last() == d[i]);
    } else {
        assert(d.take(i) =~= d);
    }
}

proof fn lemma_dot_prefix(s: Seq<char>, i: int)
    requires
        0 <= i <= s.len(),
        forall|j: int| 0 <= j < i ==> s[j] != '.',
    ensures
        (i == s.len() || s[i] == '.') ==> dot_prefix(s) == s.take(i),
        i < s.len() && s[i] != '.' ==> dot_prefix(s).len() > i && dot_prefix(s)[i] == s[i]
            && dot_prefix(s).take(i + 1) == s.take(i + 1),
    decreases i,
{
    if i > 0 {
        lemma_dot_prefix(s.drop_first(), i - 1);
        assert(s.drop_first().take(i - 1) =~= s.take(i).drop_first());
        assert(seq![s[0]] + s.take(i).drop_first() =~= s.take(i));
        if i < s.len() && s[i] != '.' {
            assert(s.drop_first().take(i) =~= s.take(i + 1).drop_first());
            assert(seq![s[0]] + s.take(i + 1).drop_first() =~= s.take(i + 1));
        }
    } else {
        if s.len() > 0 && s[0] != '.' {
            assert(dot_prefix(s).take(1) =~= s.take(1));
        }
    }
}

/// The major version of a `major.minor.patch` version string: the number
/// before the first `.`, as `str::parse::<u32>` reads it.
pub fn major_version(version: &str) -> (r: Option<u32>)
    ensures
        r == spec_parse_u32(dot_prefix(version@)),
{
    let n = version.unicode_len();
    let ghost s = version@;
    let mut end: usize = 0;
    while end < n
        invariant
            n == s.len(),
            s == version@,
            end <= n,
            forall|j: int| 0 <= j < end ==> s[j] != '.',
        ensures
            end <= n,
            forall|j: int| 0 <= j < end ==> s[j] != '.',
            end == n || s[end as int] == '.',
        decreases n - end,
    {
        if version.get_char(end) == '.' {
            break;
        }
        end = end + 1;
    }
    proof {
        lemma_dot_prefix(s, end as int);
    }
    let ghost p = dot_prefix(s);
    assert(p == s.take(end as int));
    let start: usize = if end > 0 && version.get_char(0) == '+' { 1 } else { 0 };
    let ghost d = s.subrange(start as int, end as int);
    assert(d =~= unsigned_digits(p));
    let mut acc: u64 = 0;
    let mut k: usize = start;
    while k < end
        invariant
            n == s.len(),
            s == version@,
            start <= k <= end <= n,
            d == s.subrange(start as int, end as int),
            p == dot_prefix(s),
            d == unsigned_digits(p),
            forall|j: int| start <= j < k ==> is_digit(#[trigger] s[j]),
            acc == digits_value(s.subrange(start as int, k as int)),
            acc <= u32::MAX,
        decreases end - k,
    {
        let c = version.get_char(k);
        if !('0' <= c && c <= '9') {
            proof {
                let w = k - start;
                assert(d[w] == c);
                assert(0 <= w < d.len() && !is_digit(d[w]));
                assert(exists|i: int| 0 <= i < d.len() && !is_digit(#[trigger] d[i]));
                assert(spec_parse_u32(p) is None);
            }
            return None;
        }
        let v = (c as u32 - '0' as u32) as u64;
        proof {
            assert(s.subrange(start as int, k + 1).drop_last() =~= s.subrange(start as int, k as int));
        }
        acc = acc * 10 + v;
        if acc > 0xffff_ffff {
            proof {
                assert(d.take(k + 1 - start) =~= s.subrange(start as int, k + 1));
                if forall|j: int| 0 <= j < d.len() ==> is_digit(#[trigger] d[j]) {
                    lemma_digits_value_prefix(d, k + 1 - start);
                    assert(digits_value(d) > u32::MAX);
                } else {
                    assert(exists|i: int| 0 <= i < d.len() && !is_digit(#[trigger] d[i]));
                }
                assert(spec_parse_u32(p) is None);
            }
            return None;
        }
        k = k + 1;
    }
    proof {
        assert(s.subrange(start as int, k as int) =~= d);
        assert forall|j: int| 0 <= j < d.len() implies is_digit(#[trigger] d[j]) by {
            assert(d[j] == s[start + j]);
        }
    }
    if end == start {
        return None;
    }
    Some(acc as u32)
}

/// `a` joined with `b` the way a path is extended on Unix: an absolute `b`
/// replaces `a`; otherwise a `/` goes between them unless `a` is empty or
/// already ends with one.
pub open spec fn path_join(a: Seq<char>, b: Seq<char>) -> Seq<char> {
    if b.len() > 0 && b[0] == '/' {
        b
    } else if a.len() > 0 && a.last() != '/' {
        a + seq!['/'] + b
    } else {
        a + b
    }
}

pub open spec fn digit_char(d: nat) -> char {
    if d == 0 { '0' } else if d == 1 { '1' } else if d == 2 { '2' } else if d == 3 { '3' } else if d
        == 4 { '4' } else if d == 5 { '5' } else if d == 6 { '6' } else if d == 7 { '7' } else if d
        == 8 { '8' } else { '9' }
}

/// The decimal digits of `n`, without leading zeros.
pub open spec fn decimal(n: nat) -> Seq<char>
    decreases n,
{
    if n < 10 {
        seq![digit_char(n)]
    } else {
        decimal(n / 10).push(digit_char(n % 10))
    }
}

/// The digits of `n` where `n` is positive; nothing for zero.
pub open spec fn leading_digits(n: nat) -> Seq<char> {
    if n == 0 {
        Seq::empty()
    } else {
        decimal(n)
    }
}

/// Where the tilemap of body `body_index` is saved, under save `save_name`.
pub open spec fn spec_tmb_path(save_name: Seq<char>, body_index: nat) -> Seq<char> {
    path_join(
        path_join(path_join(path_join("data"@, "saves"@), save_name), "maps"@),
        decimal(body_index) + ".tmb"@,
    )
}

fn digit_str(d: usize) -> (r: &'static str)
    requires
        d < 10,
    ensures
        r@ == seq![digit_char(d as nat)],
{
    proof {
        reveal_strlit("0");
        reveal_strlit("1");
        reveal_strlit("2");
        reveal_strlit("3");
        reveal_strlit("4");
        reveal_strlit("5");
        reveal_strlit("6");
        reveal_strlit("7");
        reveal_strlit("8");
        reveal_strlit("9");
    }
    if d == 0 {
        "0"
    } else if d == 1 {
        "1"
    } else if d == 2 {
        "2"
    } else if d == 3 {
        "3"
    } else if d == 4 {
        "4"
    } else if d == 5 {
        "5"
    } else if d == 6 {
        "6"
    } else if d == 7 {
        "7"
    } else if d == 8 {
        "8"
    } else {
        "9"
    }
}

proof fn lemma_decimal_split(m: nat)
    ensures
        decimal(m) == leading_digits(m / 10).push(digit_char(m % 10)),
{
    if m < 10 {
        assert(decimal(m) =~= Seq::<char>::empty().push(digit_char(m % 10)));
    }
}

/// The decimal digits of `n`, as `u128`'s `Display` writes them.
pub fn u128_to_decimal(n: u128) -> (r: String)
    ensures
        r@ == decimal(n as nat),
{
    let mut digits: Vec<usize> = Vec::new();
    let mut m = n;
    let ghost rest = Seq::<char>::empty();
    loop
        invariant_except_break
            decimal(n as nat) == (if digits@.len() == 0 { decimal(m as nat) } else { leading_digits(m as nat) }) + rest,
            digits@.len() > 0 ==> m > 0,
            digits@.len() == rest.len(),
            forall|j: int| 0 <= j < digits@.len() ==> #[trigger] digits@[j] < 10,
            forall|j: int|
                0 <= j < rest.len() ==> rest[j] == digit_char(#[trigger] digits@[digits@.len() - 1 - j] as nat),
        ensures
            decimal(n as nat) == rest,
            digits@.len() == rest.len(),
            forall|j: int| 0 <= j < digits@.len() ==> #[trigger] digits@[j] < 10,
            forall|j: int|
                0 <= j < rest.len() ==> rest[j] == digit_char(#[trigger] digits@[digits@.len() - 1 - j] as nat),
        decreases m,
    {
        let d = (m % 10) as usize;
        let ghost old_digits = digits@;
        let ghost old_rest = rest;
        proof {
            lemma_decimal_split(m as nat);
            assert((if digits@.len() == 0 { decimal(m as nat) } else { leading_digits(m as nat) }) == decimal(
                m as nat,
            ));
            rest = seq![digit_char(d as nat)] + rest;
            assert(leading_digits((m / 10) as nat) + rest =~= decimal(m as nat) + old_rest);
        }
        digits.push(d);
        proof {
            assert forall|j: int| 0 <= j < rest.len() implies rest[j] == digit_char(
                #[trigger] digits@[digits@.len() - 1 - j] as nat,
            ) by {
                if j > 0 {
                    assert(rest[j] == old_rest[j - 1]);
                    assert(digits@[digits@.len() - 1 - j] == old_digits[old_digits.len() - 1 - (j - 1)]);
                }
            }
        }
        m = m / 10;
        if m == 0 {
            proof {
                assert(leading_digits(0) + rest =~= rest);
            }
            break;
        }
    }
    let mut s = String::new();
    let mut j = digits.len();
    while j > 0
        invariant
            j <= digits@.len(),
            forall|i: int| 0 <= i < digits@.len() ==> #[trigger] digits@[i] < 10,
            forall|i: int|
                0 <= i < rest.len() ==> rest[i] == digit_char(#[trigger] digits@[digits@.len() - 1 - i] as nat),
            digits@.len() == rest.len(),
            s@ == rest.take(digits@.len() - j),
        decreases j,
    {
        let ds = digit_str(digits[j - 1]);
        proof {
            let i = digits@.len() - j;
            assert(digits@[digits@.len() - 1 - i] == digits@[j - 1]);
            assert(rest[i] == digit_char(digits@[j - 1] as nat));
        }
        s.append(ds);
        proof {
            assert(rest.take(digits@.len() - (j - 1)) =~= rest.take(digits@.len() - j).push(
                rest[digits@.len() - j],
            ));
        }
        j = j - 1;
    }
    proof {
        assert(rest.take(rest.len() as int) =~= rest);
    }
    s
}

/// The decimal digits of `n`, as `usize`'s `Display` writes them.
pub fn usize_to_decimal(n: usize) -> (r: String)
    ensures
        r@ == decimal(n as nat),
{
    u128_to_decimal(n as u128)
}

/// `a` joined with `b` the way a path is extended on Unix.
pub fn path_join_str(a: String, b: &str) -> (r: String)
    ensures
        r@ == path_join(a@, b@),
{
    proof {
        reveal_strlit("/");
    }
    let blen = b.unicode_len();
    if blen > 0 && b.get_char(0) == '/' {
        return String::from_str(b);
    }
    let alen = a.as_str().unicode_len();
    if alen > 0 && a.as_str().get_char(alen - 1) != '/' {
        let r = a.concat("/").concat(b);
        assert(r@ =~= a@ + seq!['/'] + b@);
        r
    } else {
        a.concat(b)
    }
}

/// Where the tilemap of body `body_index` is saved, under save `save_name`:
/// `data/saves/<save_name>/maps/<body_index>.tmb`.
pub fn construct_tmb_path(save_name: &str, body_index: usize) -> (r: String)
    ensures
        r@ == spec_tmb_path(save_name@, body_index as nat),
{
    let p = path_join_str(String::from_str("data"), "saves");
    let p = path_join_str(p, save_name);
    let p = path_join_str(p, "maps");
    let file = usize_to_decimal(body_index).concat(".tmb");
    path_join_str(p, file.as_str())
}

} // verus!
