use vstd::prelude::*;

use crate::map::render::extract::TilemapChanges;
use crate::map::storage::{Chunk, ChunkKey};
use crate::map::tilemap::{encoded_word, ColorBits, FlattenedTileIndex, Tile, TileAtlasIndex};
use crate::math::IVec3;

verus! {

/// What the mesh of a chunk holds for one tile.
#[derive(Debug, Clone, Copy)]
pub struct TileMeshData {
    pub tint: ColorBits,
    /// If not animated: `(texture_index, atlas_index, 0, 0)`.
    ///
    /// If animated: `(start, len, 1, offset_milisec)`.
    pub atlas_index: (u32, u32, u32, u32),
    pub tile_index: IVec3,
}

/// The tiles of a chunk that are present, in slot order.
pub open spec fn present_tiles(tiles: Seq<Option<TileMeshData>>) -> Seq<TileMeshData>
    decreases tiles.len(),
{
    if tiles.len() == 0 {
        Seq::empty()
    } else {
        let rest = present_tiles(tiles.drop_last());
        match tiles.last() {
            Some(t) => rest.push(t),
            None => rest,
        }
    }
}

/// The offset, within a tile's six vertices, of the vertex that index `v % 6`
/// of the tile's two triangles names.
pub open spec fn corner(v: int) -> int {
    if v % 6 == 0 {
        0
    } else if v % 6 == 1 || v % 6 == 3 {
        1
    } else if v % 6 == 2 || v % 6 == 5 {
        3
    } else {
        2
    }
}

/// The vertex buffers of a chunk's mesh: six vertices per present tile,
/// every one carrying its tile's data, and two triangles per tile.
pub struct ChunkMeshBuffers {
    pub vertex_count: usize,
    pub atlas_indices: Vec<(u32, u32, u32, u32)>,
    pub colors: Vec<ColorBits>,
    pub tile_indices: Vec<IVec3>,
    pub vertex_indices: Vec<u32>,
}

/// The given buffers are those of the mesh of the tiles `tiles`.
pub open spec fn buffers_hold(
    vertex_count: int,
    atlas_indices: Seq<(u32, u32, u32, u32)>,
    colors: Seq<ColorBits>,
    tile_indices: Seq<IVec3>,
    vertex_indices: Seq<u32>,
    tiles: Seq<Option<TileMeshData>>,
) -> bool {
    let p = present_tiles(tiles);
    &&& vertex_count == 6 * p.len()
    &&& atlas_indices.len() == 6 * p.len()
    &&& colors.len() == 6 * p.len()
    &&& tile_indices.len() == 6 * p.len()
    &&& vertex_indices.len() == 6 * p.len()
    &&& forall|v: int|
        0 <= v < 6 * p.len() ==> {
            &&& #[trigger] atlas_indices[v] == p[v / 6].atlas_index
            &&& colors[v] == p[v / 6].tint
            &&& tile_indices[v] == p[v / 6].tile_index
            &&& vertex_indices[v] == 6 * (v / 6) + corner(v)
        }
}

/// `r` holds the buffers of the mesh of the tiles `tiles`.
pub open spec fn buffers_of(r: ChunkMeshBuffers, tiles: Seq<Option<TileMeshData>>) -> bool {
    buffers_hold(
        r.vertex_count as int,
        r.atlas_indices@,
        r.colors@,
        r.tile_indices@,
        r.vertex_indices@,
        tiles,
    )
}

proof fn lemma_present_len(tiles: Seq<Option<TileMeshData>>)
    ensures
        present_tiles(tiles).len() <= tiles.len(),
    decreases tiles.len(),
{
    if tiles.len() > 0 {
        lemma_present_len(tiles.drop_last());
    }
}

/// The buffers hold six vertices for each tile of `pres`, in order.
pub open spec fn buffers_prefix(
    atlas_indices: Seq<(u32, u32, u32, u32)>,
    colors: Seq<ColorBits>,
    tile_indices: Seq<IVec3>,
    vertex_indices: Seq<u32>,
    pres: Seq<TileMeshData>,
) -> bool {
    forall|v: int|
        0 <= v < 6 * pres.len() ==> {
            &&& #[trigger] atlas_indices[v] == pres[v / 6].atlas_index
            &&& colors[v] == pres[v / 6].tint
            &&& tile_indices[v] == pres[v / 6].tile_index
            &&& vertex_indices[v] == 6 * (v / 6) + corner(v)
        }
}

proof fn lemma_buffers_hold_intro(
    vertex_count: int,
    atlas_indices: Seq<(u32, u32, u32, u32)>,
    colors: Seq<ColorBits>,
    tile_indices: Seq<IVec3>,
    vertex_indices: Seq<u32>,
    tiles: Seq<Option<TileMeshData>>,
)
    requires
        vertex_count == 6 * present_tiles(tiles).len(),
        atlas_indices.len() == vertex_count,
        colors.len() == vertex_count,
        tile_indices.len() == vertex_count,
        vertex_indices.len() == vertex_count,
        forall|v: int|
            0 <= v < vertex_count ==> {
                &&& #[trigger] atlas_indices[v] == present_tiles(tiles)[v / 6].atlas_index
                &&& colors[v] == present_tiles(tiles)[v / 6].tint
                &&& tile_indices[v] == present_tiles(tiles)[v / 6].tile_index
                &&& vertex_indices[v] == 6 * (v / 6) + corner(v)
            },
    ensures
        buffers_hold(vertex_count, atlas_indices, colors, tile_indices, vertex_indices, tiles),
{
}

/// The buffers of the mesh of a chunk whose slots are `tiles`.
pub fn chunk_mesh_buffers(tiles: &Vec<Option<TileMeshData>>) -> (r: ChunkMeshBuffers)
    requires
        6 * present_tiles(tiles@).len() <= u32::MAX,
    ensures
        buffers_of(r, tiles@),
{
    let mut atlas_indices: Vec<(u32, u32, u32, u32)> = Vec::new();
    let mut colors: Vec<ColorBits> = Vec::new();
    let mut tile_indices: Vec<IVec3> = Vec::new();
    let mut vertex_indices: Vec<u32> = Vec::new();
    let mut count: usize = 0;
    let mut i: usize = 0;
    let ghost mut pres: Seq<TileMeshData> = Seq::empty();
    proof {
        lemma_present_len(tiles@);
        assert(tiles@.take(0) =~= Seq::<Option<TileMeshData>>::empty());
    }
    while i < tiles.len()
        invariant
            i <= tiles@.len(),
            6 * present_tiles(tiles@).len() <= u32::MAX,
            pres == present_tiles(tiles@.take(i as int)),
            count == pres.len(),
            count <= present_tiles(tiles@).len(),
            atlas_indices@.len() == 6 * count,
            colors@.len() == 6 * count,
            tile_indices@.len() == 6 * count,
            vertex_indices@.len() == 6 * count,
            buffers_prefix(atlas_indices@, colors@, tile_indices@, vertex_indices@, pres),
        decreases tiles@.len() - i,
    {
        proof {
            lemma_present_prefix(tiles@, i + 1);
            lemma_present_take_mono(tiles@, i + 1);
        }
        if let Some(tile) = &tiles[i] {
            let base: u32 = (count as u32) * 6;
            assert(forall|v: int|
                0 <= v < 6 * count ==> {
                    &&& #[trigger] atlas_indices@[v] == pres[v / 6].atlas_index
                    &&& colors@[v] == pres[v / 6].tint
                    &&& tile_indices@[v] == pres[v / 6].tile_index
                    &&& vertex_indices@[v] == 6 * (v / 6) + corner(v)
                });
            let mut k: usize = 0;
            while k < 6
                invariant
                    k <= 6,
                    base == 6 * count,
                    6 * count + 6 <= u32::MAX,
                    count == pres.len(),
                    atlas_indices@.len() == 6 * count + k,
                    colors@.len() == 6 * count + k,
                    tile_indices@.len() == 6 * count + k,
                    vertex_indices@.len() == 6 * count + k,
                    forall|v: int|
                        0 <= v < 6 * count ==> {
                            &&& #[trigger] atlas_indices@[v] == pres[v / 6].atlas_index
                            &&& colors@[v] == pres[v / 6].tint
                            &&& tile_indices@[v] == pres[v / 6].tile_index
                            &&& vertex_indices@[v] == 6 * (v / 6) + corner(v)
                        },
                    forall|v: int|
                        6 * count <= v < 6 * count + k ==> {
                            &&& #[trigger] atlas_indices@[v] == tile.atlas_index
                            &&& colors@[v] == tile.tint
                            &&& tile_indices@[v] == tile.tile_index
                            &&& vertex_indices@[v] == 6 * count + corner(v)
                        },
                decreases 6 - k,
            {
                atlas_indices.push(tile.atlas_index);
                colors.push(tile.tint);
                tile_indices.push(tile.tile_index);
                let off: u32 = if k == 0 {
                    0
                } else if k == 1 || k == 3 {
                    1
                } else if k == 2 || k == 5 {
                    3
                } else {
                    2
                };
                proof {
                    let v = 6 * count + k;
                    assert(v % 6 == k) by (nonlinear_arith)
                        requires
                            v == 6 * count + k,
                            0 <= k < 6,
                    ;
                }
                vertex_indices.push(base + off);
                k = k + 1;
            }
            let ghost c0 = count;
            count = count + 1;
            proof {
                let old_pres = pres;
                pres = pres.push(*tile);
                assert forall|v: int| 0 <= v < 6 * count implies {
                    &&& #[trigger] atlas_indices@[v] == pres[v / 6].atlas_index
                    &&& colors@[v] == pres[v / 6].tint
                    &&& tile_indices@[v] == pres[v / 6].tile_index
                    &&& vertex_indices@[v] == 6 * (v / 6) + corner(v)
                } by {
                    if v >= 6 * c0 {
                        assert(v / 6 == c0) by (nonlinear_arith)
                            requires
                                6 * c0 <= v < 6 * c0 + 6,
                        ;
                    } else {
                        assert(v / 6 < c0) by (nonlinear_arith)
                            requires
                                0 <= v < 6 * c0,
                        ;
                        assert(pres[v / 6] == old_pres[v / 6]);
                    }
                    assert(atlas_indices@[v] == pres[v / 6].atlas_index);
                    assert(colors@[v] == pres[v / 6].tint);
                    assert(tile_indices@[v] == pres[v / 6].tile_index);
                    assert(vertex_indices@[v] == 6 * (v / 6) + corner(v));
                }
                assert(buffers_prefix(atlas_indices@, colors@, tile_indices@, vertex_indices@, pres));
            }
        }
        i = i + 1;
    }
    proof {
        assert(tiles@.take(tiles@.len() as int) =~= tiles@);
        lemma_buffers_hold_intro(6 * count, atlas_indices@, colors@, tile_indices@, vertex_indices@, tiles@);
    }
    ChunkMeshBuffers { vertex_count: 6 * count, atlas_indices, colors, tile_indices, vertex_indices }
}

proof fn lemma_present_take_mono(tiles: Seq<Option<TileMeshData>>, j: int)
    requires
        0 <= j <= tiles.len(),
    ensures
        present_tiles(tiles.take(j)).len() <= present_tiles(tiles).len(),
    decreases tiles.len() - j,
{
    if j < tiles.len() {
        lemma_present_take_mono(tiles, j + 1);
        lemma_present_prefix(tiles, j + 1);
    } else {
        assert(tiles.take(j) =~= tiles);
    }
}

proof fn lemma_present_prefix(tiles: Seq<Option<TileMeshData>>, i: int)
    requires
        0 < i <= tiles.len(),
    ensures
        present_tiles(tiles.take(i)) == match tiles[i - 1] {
            Some(t) => present_tiles(tiles.take(i - 1)).push(t),
            None => present_tiles(tiles.take(i - 1)),
        },
        present_tiles(tiles.take(i - 1)).len() <= present_tiles(tiles.take(i)).len(),
{
    assert(tiles.take(i).drop_last() =~= tiles.take(i - 1));
}

/// What the mesh holds for `tile`: nothing for an invisible tile; else its
/// tint, its atlas (a static one encoded, with `0, 0`; an animated one as
/// start, frame count, `1` and offset) and its direct index.
pub open spec fn spec_tile_mesh_data(tile: Tile) -> Option<TileMeshData> {
    if tile.visible {
        Some(
            TileMeshData {
                tint: tile.tint,
                atlas_index: match tile.atlas_index {
                    TileAtlasIndex::Static(s) => (s.texture, encoded_word(s), 0, 0),
                    TileAtlasIndex::Animated { anim, offset_milisec } => (
                        anim@.0 as u32,
                        anim@.1 as u32,
                        1,
                        offset_milisec,
                    ),
                },
                tile_index: tile.index.spec_direct(),
            },
        )
    } else {
        None
    }
}

pub fn tile_mesh_data(tile: &Tile) -> (r: Option<TileMeshData>)
    ensures
        r == spec_tile_mesh_data(*tile),
{
    if !tile.visible {
        return None;
    }
    let atlas_index = match tile.atlas_index {
        TileAtlasIndex::Static(s) => {
            let e = s.encode();
            (e.texture, e.atlas, 0, 0)
        },
        TileAtlasIndex::Animated { anim, offset_milisec } => (
            anim.start() as u32,
            anim.len() as u32,
            1,
            offset_milisec,
        ),
    };
    Some(TileMeshData { tint: tile.tint, atlas_index, tile_index: tile.index.direct() })
}

/// The mesh data of one chunk of a tilemap, and whether its mesh must be rebuilt.
pub struct TilemapRenderChunk {
    chunk_size: u32,
    tiles: Vec<Option<TileMeshData>>,
    is_dirty: bool,
}

impl TilemapRenderChunk {
    pub closed spec fn spec_chunk_size(&self) -> u32 {
        self.chunk_size
    }

    pub fn chunk_size(&self) -> (r: u32)
        ensures
            r == self.spec_chunk_size(),
    {
        self.chunk_size
    }

    pub closed spec fn spec_tiles(&self) -> Seq<Option<TileMeshData>> {
        self.tiles@
    }

    pub closed spec fn spec_is_dirty(&self) -> bool {
        self.is_dirty
    }

    /// A dirty chunk of `chunk_size` squared empty slots.
    pub fn new(chunk_size: u32) -> (r: Self)
        requires
            chunk_size * chunk_size <= u32::MAX,
        ensures
            r.spec_chunk_size() == chunk_size,
            r.spec_tiles() == Seq::new((chunk_size * chunk_size) as nat, |i: int| None::<TileMeshData>),
            r.spec_is_dirty(),
    {
        let n = (chunk_size * chunk_size) as usize;
        let mut tiles: Vec<Option<TileMeshData>> = Vec::new();
        let mut i: usize = 0;
        while i < n
            invariant
                i <= n,
                tiles@ == Seq::new(i as nat, |j: int| None::<TileMeshData>),
            decreases n - i,
        {
            tiles.push(None);
            i = i + 1;
            assert(tiles@ =~= Seq::new(i as nat, |j: int| None::<TileMeshData>));
        }
        TilemapRenderChunk { chunk_size, tiles, is_dirty: true }
    }

    /// Puts `tile` into slot `index` and marks the chunk dirty.
    pub fn set(&mut self, index: usize, tile: Option<TileMeshData>)
        requires
            index < old(self).spec_tiles().len(),
        ensures
            final(self).spec_chunk_size() == old(self).spec_chunk_size(),
            final(self).spec_tiles() == old(self).spec_tiles().update(index as int, tile),
            final(self).spec_is_dirty(),
    {
        self.tiles.set(index, tile);
        self.is_dirty = true;
    }

    pub fn tiles(&self) -> (r: &Vec<Option<TileMeshData>>)
        ensures
            r@ == self.spec_tiles(),
    {
        &self.tiles
    }

    pub fn is_dirty(&self) -> (r: bool)
        ensures
            r == self.spec_is_dirty(),
    {
        self.is_dirty
    }

    /// Marks the chunk as having an up-to-date mesh.
    pub fn mark_clean(&mut self)
        ensures
            final(self).spec_chunk_size() == old(self).spec_chunk_size(),
            final(self).spec_tiles() == old(self).spec_tiles(),
            !final(self).spec_is_dirty(),
    {
        self.is_dirty = false;
    }

    /// The buffers of this chunk's mesh.
    pub fn mesh_buffers(&self) -> (r: ChunkMeshBuffers)
        requires
            6 * present_tiles(self.spec_tiles()).len() <= u32::MAX,
        ensures
            buffers_of(r, self.spec_tiles()),
    {
        chunk_mesh_buffers(&self.tiles)
    }
}

/// A hash map from chunk keys to the render chunks of one tilemap, held in
/// `bevy`'s `HashMap` (`hashbrown`'s).
#[verifier::external_body]
pub struct RenderChunkMap {
    inner: bevy::utils::HashMap<ChunkKey, TilemapRenderChunk>,
}

/// What a [`RenderChunkMap`] holds.
pub uninterp spec fn render_chunk_map_contents(m: RenderChunkMap) -> Map<ChunkKey, TilemapRenderChunk>;

impl RenderChunkMap {
    /// `HashMap::default`: an empty map.
    #[verifier::external_body]
    fn new() -> (r: Self)
        ensures
            render_chunk_map_contents(r).dom().is_empty(),
    {
        RenderChunkMap { inner: Default::default() }
    }

    /// `HashMap::get`: the value under `k`, if any.
    #[verifier::external_body]
    fn get(&self, k: &ChunkKey) -> (r: Option<&TilemapRenderChunk>)
        ensures
            match r {
                Some(c) => render_chunk_map_contents(*self).contains_key(*k) && *c
                    == render_chunk_map_contents(*self)[*k],
                None => !render_chunk_map_contents(*self).contains_key(*k),
            },
    {
        self.inner.get(k)
    }

    /// `HashMap::insert`: puts `v` under `k` and hands back what was there.
    #[verifier::external_body]
    fn insert(&mut self, k: ChunkKey, v: TilemapRenderChunk) -> (r: Option<TilemapRenderChunk>)
        ensures
            render_chunk_map_contents(*final(self)) == render_chunk_map_contents(*old(self)).insert(k, v),
            r == (if render_chunk_map_contents(*old(self)).contains_key(k) {
                Some(render_chunk_map_contents(*old(self))[k])
            } else {
                None
            }),
    {
        self.inner.insert(k, v)
    }

    /// `HashMap::remove`: takes the value under `k` out, if any.
    #[verifier::external_body]
    fn remove(&mut self, k: &ChunkKey) -> (r: Option<TilemapRenderChunk>)
        ensures
            render_chunk_map_contents(*final(self)) == render_chunk_map_contents(*old(self)).remove(*k),
            r == (if render_chunk_map_contents(*old(self)).contains_key(*k) {
                Some(render_chunk_map_contents(*old(self))[*k])
            } else {
                None
            }),
    {
        self.inner.remove(k)
    }

    /// `HashMap::keys`, collected: every key once, in the map's own order.
    #[verifier::external_body]
    fn keys(&self) -> (r: Vec<ChunkKey>)
        ensures
            r@.to_set() == render_chunk_map_contents(*self).dom(),
            r@.no_duplicates(),
    {
        self.inner.keys().copied().collect()
    }
}

/// The render chunks after `tile`, found at `index`, is brought in: a tile
/// goes into the slot its own index names, in a chunk made with `cs * cs`
/// empty slots where there was none; an empty slot empties the slot of an
/// existing chunk. The chunk touched is marked dirty; a chunk made here has
/// chunk size `cs`, an existing one keeps its own.
pub open spec fn render_update(
    m: Map<ChunkKey, (Seq<Option<TileMeshData>>, bool, u32)>,
    cs: u32,
    index: FlattenedTileIndex,
    tile: Option<Tile>,
) -> Map<ChunkKey, (Seq<Option<TileMeshData>>, bool, u32)> {
    match tile {
        None => {
            let k = index.chunk_index.key();
            if m.contains_key(k) {
                m.insert(k, (m[k].0.update(index.in_chunk_index as int, None), true, m[k].2))
            } else {
                m
            }
        },
        Some(t) => {
            let f = t.index.spec_flattend();
            let k = f.chunk_index.key();
            m.insert(
                k,
                (
                    (if m.contains_key(k) {
                        m[k].0
                    } else {
                        Seq::new((cs * cs) as nat, |i: int| None::<TileMeshData>)
                    }).update(f.in_chunk_index as int, spec_tile_mesh_data(t)),
                    true,
                    if m.contains_key(k) {
                        m[k].2
                    } else {
                        cs
                    },
                ),
            )
        },
    }
}

/// The slot that bringing in `tile` at `index` writes lies inside its chunk.
pub open spec fn render_update_ok(
    m: Map<ChunkKey, (Seq<Option<TileMeshData>>, bool, u32)>,
    cs: u32,
    index: FlattenedTileIndex,
    tile: Option<Tile>,
) -> bool {
    match tile {
        None => m.contains_key(index.chunk_index.key()) ==> index.in_chunk_index < m[index.chunk_index.key()].0.len(),
        Some(t) => {
            let f = t.index.spec_flattend();
            if m.contains_key(f.chunk_index.key()) {
                f.in_chunk_index < m[f.chunk_index.key()].0.len()
            } else {
                f.in_chunk_index < cs * cs
            }
        },
    }
}

/// One step of bringing a tilemap's changes into its render chunks.
pub enum RenderOp {
    Update(FlattenedTileIndex, Option<Tile>),
    RemoveChunk(ChunkKey),
}

pub open spec fn apply_op(
    m: Map<ChunkKey, (Seq<Option<TileMeshData>>, bool, u32)>,
    cs: u32,
    op: RenderOp,
) -> Map<ChunkKey, (Seq<Option<TileMeshData>>, bool, u32)> {
    match op {
        RenderOp::Update(index, tile) => render_update(m, cs, index, tile),
        RenderOp::RemoveChunk(k) => m.remove(k),
    }
}

pub open spec fn op_ok(m: Map<ChunkKey, (Seq<Option<TileMeshData>>, bool, u32)>, cs: u32, op: RenderOp) -> bool {
    match op {
        RenderOp::Update(index, tile) => render_update_ok(m, cs, index, tile),
        RenderOp::RemoveChunk(k) => true,
    }
}

/// The render chunks after the steps `ops`, in order.
pub open spec fn apply_ops(
    m: Map<ChunkKey, (Seq<Option<TileMeshData>>, bool, u32)>,
    cs: u32,
    ops: Seq<RenderOp>,
) -> Map<ChunkKey, (Seq<Option<TileMeshData>>, bool, u32)>
    decreases ops.len(),
{
    if ops.len() == 0 {
        m
    } else {
        apply_ops(apply_op(m, cs, ops[0]), cs, ops.drop_first())
    }
}

/// Every step of `ops`, in order, writes inside its chunk.
pub open spec fn ops_ok(m: Map<ChunkKey, (Seq<Option<TileMeshData>>, bool, u32)>, cs: u32, ops: Seq<RenderOp>) -> bool
    decreases ops.len(),
{
    if ops.len() == 0 {
        true
    } else {
        op_ok(m, cs, ops[0]) && ops_ok(apply_op(m, cs, ops[0]), cs, ops.drop_first())
    }
}

/// The steps for a changed chunk: each of its slots brought in, in order;
/// or, where the chunk is gone, the removal of its render chunk.
pub open spec fn chunk_ops(index: IVec3, chunk: Option<Seq<Option<Tile>>>) -> Seq<RenderOp> {
    match chunk {
        Some(slots) => Seq::new(
            slots.len(),
            |i: int| RenderOp::Update(FlattenedTileIndex { chunk_index: index, in_chunk_index: i as usize }, slots[i]),
        ),
        None => seq![RenderOp::RemoveChunk(index.key())],
    }
}

/// The steps for the changed chunks, chunk after chunk.
pub open spec fn chunks_ops(chunks: Seq<(IVec3, Option<Chunk<Tile>>)>) -> Seq<RenderOp>
    decreases chunks.len(),
{
    if chunks.len() == 0 {
        Seq::empty()
    } else {
        chunk_ops(
            chunks[0].0,
            match chunks[0].1 {
                Some(c) => Some(c@),
                None => None,
            },
        ) + chunks_ops(chunks.drop_first())
    }
}

/// The steps that bring `changes` in: the changed tiles, then the changed
/// chunks.
pub open spec fn change_ops(changes: TilemapChanges) -> Seq<RenderOp> {
    Seq::new(
        changes.changed_tiles@.len(),
        |i: int| RenderOp::Update(changes.changed_tiles@[i].0, changes.changed_tiles@[i].1),
    ) + chunks_ops(changes.changed_chunks@)
}

proof fn lemma_ops_step(m: Map<ChunkKey, (Seq<Option<TileMeshData>>, bool, u32)>, cs: u32, ops: Seq<RenderOp>)
    requires
        ops.len() > 0,
    ensures
        apply_ops(m, cs, ops) == apply_ops(apply_op(m, cs, ops[0]), cs, ops.drop_first()),
        ops_ok(m, cs, ops) == (op_ok(m, cs, ops[0]) && ops_ok(apply_op(m, cs, ops[0]), cs, ops.drop_first())),
{
}

/// Every index of a chunk's mesh names one of its vertices, and the two
/// triangles of each tile use only that tile's six vertices.
pub proof fn law_mesh_indices_in_range(
    vertex_count: int,
    atlas_indices: Seq<(u32, u32, u32, u32)>,
    colors: Seq<ColorBits>,
    tile_indices: Seq<IVec3>,
    vertex_indices: Seq<u32>,
    tiles: Seq<Option<TileMeshData>>,
    v: int,
)
    requires
        buffers_hold(vertex_count, atlas_indices, colors, tile_indices, vertex_indices, tiles),
        0 <= v < vertex_indices.len(),
    ensures
        vertex_indices[v] < vertex_count,
        6 * (v / 6) <= vertex_indices[v] < 6 * (v / 6) + 6,
{
    assert(0 <= v / 6 < present_tiles(tiles).len()) by (nonlinear_arith)
        requires
            0 <= v < 6 * present_tiles(tiles).len(),
    ;
    assert(6 * (v / 6) + 6 <= 6 * present_tiles(tiles).len()) by (nonlinear_arith)
        requires
            v / 6 < present_tiles(tiles).len(),
    ;
    assert(atlas_indices[v] == present_tiles(tiles)[v / 6].atlas_index);
    assert(vertex_indices[v] == 6 * (v / 6) + corner(v));
}

/// After a tile is brought into the render chunks, the slot its index names
/// holds its mesh data (nothing for a hidden tile), and every other slot of
/// an existing chunk is as it was.
pub proof fn law_render_slot_after_update(
    m: Map<ChunkKey, (Seq<Option<TileMeshData>>, bool, u32)>,
    cs: u32,
    tile: Tile,
    k: ChunkKey,
    at: int,
)
    requires
        render_update_ok(m, cs, tile.index.spec_flattend(), Some(tile)),
    ensures
        ({
            let f = tile.index.spec_flattend();
            let r = render_update(m, cs, f, Some(tile));
            &&& r.contains_key(f.chunk_index.key())
            &&& r[f.chunk_index.key()].0[f.in_chunk_index as int] == spec_tile_mesh_data(tile)
            &&& r[f.chunk_index.key()].1
            &&& (m.contains_key(k) && 0 <= at < m[k].0.len() && (k, at) != (f.chunk_index.key(), f.in_chunk_index as int))
                ==> r[k].0[at] == m[k].0[at]
        }),
{
}

/// The render chunks of one tilemap.
pub struct TilemapRenderChunks {
    chunk_size: u32,
    chunks: RenderChunkMap,
}

/// A render chunk as its slots, its dirtiness and its chunk size.
pub open spec fn chunk_state(c: TilemapRenderChunk) -> (Seq<Option<TileMeshData>>, bool, u32) {
    (c.spec_tiles(), c.spec_is_dirty(), c.spec_chunk_size())
}

impl TilemapRenderChunks {
    pub closed spec fn spec_chunk_size(&self) -> u32 {
        self.chunk_size
    }

    pub fn chunk_size(&self) -> (r: u32)
        ensures
            r == self.spec_chunk_size(),
    {
        self.chunk_size
    }

    /// The chunks, each as its slots and dirtiness.
    pub closed spec fn spec_chunks(&self) -> Map<ChunkKey, (Seq<Option<TileMeshData>>, bool, u32)> {
        render_chunk_map_contents(self.chunks).map_values(|c: TilemapRenderChunk| chunk_state(c))
    }

    pub fn new(chunk_size: u32) -> (r: Self)
        ensures
            r.spec_chunk_size() == chunk_size,
            r.spec_chunks() == Map::<ChunkKey, (Seq<Option<TileMeshData>>, bool, u32)>::empty(),
    {
        let r = TilemapRenderChunks { chunk_size, chunks: RenderChunkMap::new() };
        assert(r.spec_chunks() =~= Map::<ChunkKey, (Seq<Option<TileMeshData>>, bool, u32)>::empty());
        r
    }

    /// The keys of all chunks, each once.
    pub fn keys(&self) -> (r: Vec<ChunkKey>)
        ensures
            r@.to_set() == self.spec_chunks().dom(),
            r@.no_duplicates(),
    {
        let r = self.chunks.keys();
        assert(self.spec_chunks().dom() =~= render_chunk_map_contents(self.chunks).dom());
        r
    }

    /// The chunk under `index`, if any.
    pub fn get(&self, index: &ChunkKey) -> (r: Option<&TilemapRenderChunk>)
        ensures
            match r {
                Some(c) => self.spec_chunks().contains_key(*index) && chunk_state(*c)
                    == self.spec_chunks()[*index],
                None => !self.spec_chunks().contains_key(*index),
            },
    {
        self.chunks.get(index)
    }

    /// Empties slot `index.in_chunk_index` of the chunk `index.chunk_index`, if
    /// there is such a chunk, and marks it dirty.
    pub fn remove_tile(&mut self, index: &FlattenedTileIndex)
        requires
            old(self).spec_chunks().contains_key(index.chunk_index.key()) ==> index.in_chunk_index
                < old(self).spec_chunks()[index.chunk_index.key()].0.len(),
        ensures
            final(self).spec_chunk_size() == old(self).spec_chunk_size(),
            final(self).spec_chunks() == (if old(self).spec_chunks().contains_key(index.chunk_index.key()) {
                old(self).spec_chunks().insert(
                    index.chunk_index.key(),
                    (
                        old(self).spec_chunks()[index.chunk_index.key()].0.update(index.in_chunk_index as int, None),
                        true,
                        old(self).spec_chunks()[index.chunk_index.key()].2,
                    ),
                )
            } else {
                old(self).spec_chunks()
            }),
    {
        let k = index.chunk_index.to_key();
        match self.chunks.remove(&k) {
            Some(c) => {
                let mut c = c;
                c.set(index.in_chunk_index, None);
                self.chunks.insert(k, c);
                assert(final(self).spec_chunks() =~= old(self).spec_chunks().insert(
                    k,
                    (old(self).spec_chunks()[k].0.update(index.in_chunk_index as int, None), true, old(self).spec_chunks()[k].2),
                ));
            },
            None => {
                assert(final(self).spec_chunks() =~= old(self).spec_chunks());
            },
        }
    }

    /// Removes the chunk under `index`.
    pub fn remove_chunk(&mut self, index: &ChunkKey)
        ensures
            final(self).spec_chunk_size() == old(self).spec_chunk_size(),
            final(self).spec_chunks() == old(self).spec_chunks().remove(*index),
    {
        self.chunks.remove(index);
        assert(final(self).spec_chunks() =~= old(self).spec_chunks().remove(*index));
    }

    /// Brings the mesh data of `tile` into its chunk, making the chunk (with
    /// empty slots) where there is none and marking it dirty; for an empty
    /// slot at `index`, empties the slot of an existing chunk.
    pub fn update_tile(&mut self, index: &FlattenedTileIndex, tile: &Option<Tile>)
        requires
            old(self).spec_chunk_size() * old(self).spec_chunk_size() <= u32::MAX,
            render_update_ok(old(self).spec_chunks(), old(self).spec_chunk_size(), *index, *tile),
        ensures
            final(self).spec_chunk_size() == old(self).spec_chunk_size(),
            final(self).spec_chunks() == render_update(old(self).spec_chunks(), old(self).spec_chunk_size(), *index, *tile),
    {
        match tile {
            None => self.remove_tile(index),
            Some(t) => {
                let f = t.index.flattend();
                let k = f.chunk_index.to_key();
                let data = tile_mesh_data(t);
                let mut c = match self.chunks.remove(&k) {
                    Some(c) => c,
                    None => TilemapRenderChunk::new(self.chunk_size),
                };
                c.set(f.in_chunk_index, data);
                self.chunks.insert(k, c);
                assert(final(self).spec_chunks() =~= old(self).spec_chunks().insert(
                    k,
                    (
                        (if old(self).spec_chunks().contains_key(k) {
                            old(self).spec_chunks()[k].0
                        } else {
                            Seq::new((old(self).spec_chunk_size() * old(self).spec_chunk_size()) as nat, |i: int| None::<TileMeshData>)
                        }).update(f.in_chunk_index as int, data),
                        true,
                        if old(self).spec_chunks().contains_key(k) {
                            old(self).spec_chunks()[k].2
                        } else {
                            old(self).spec_chunk_size()
                        },
                    ),
                ));
            },
        }
    }

    /// Rebuilds the mesh of every dirty chunk and marks it clean; a clean
    /// chunk is left as it is. Each dirty chunk comes out once, under its key,
    /// with the buffers of its slots.
    pub fn rebuild_dirty(&mut self) -> (r: Vec<(ChunkKey, ChunkMeshBuffers)>)
        requires
            forall|k: ChunkKey|
                #[trigger] old(self).spec_chunks().contains_key(k) && old(self).spec_chunks()[k].1 ==> 6
                    * present_tiles(old(self).spec_chunks()[k].0).len() <= u32::MAX,
        ensures
            final(self).spec_chunk_size() == old(self).spec_chunk_size(),
            final(self).spec_chunks() == old(self).spec_chunks().map_values(
                |c: (Seq<Option<TileMeshData>>, bool, u32)| (c.0, false, c.2),
            ),
            forall|j: int|
                0 <= j < r@.len() ==> {
                    &&& old(self).spec_chunks().contains_key(#[trigger] r@[j].0)
                    &&& old(self).spec_chunks()[r@[j].0].1
                    &&& buffers_of(r@[j].1, old(self).spec_chunks()[r@[j].0].0)
                },
            forall|k: ChunkKey|
                #[trigger] old(self).spec_chunks().contains_key(k) && old(self).spec_chunks()[k].1 ==> exists|j: int|
                    0 <= j < r@.len() && #[trigger] r@[j].0 == k,
            forall|a: int, b: int| 0 <= a < b < r@.len() ==> #[trigger] r@[a].0 != #[trigger] r@[b].0,
    {
        let ghost old_m = self.spec_chunks();
        let keys = self.chunks.keys();
        proof {
            assert(old_m.dom() =~= render_chunk_map_contents(self.chunks).dom());
        }
        let mut out: Vec<(ChunkKey, ChunkMeshBuffers)> = Vec::new();
        let mut i: usize = 0;
        while i < keys.len()
            invariant
                i <= keys@.len(),
                keys@.to_set() == old_m.dom(),
                keys@.no_duplicates(),
                self.spec_chunk_size() == old(self).spec_chunk_size(),
                old_m == old(self).spec_chunks(),
                forall|k: ChunkKey|
                    #[trigger] old_m.contains_key(k) && old_m[k].1 ==> 6 * present_tiles(old_m[k].0).len()
                        <= u32::MAX,
                self.spec_chunks().dom() == old_m.dom(),
                forall|m: int| 0 <= m < i ==> #[trigger] self.spec_chunks()[keys@[m]] == (
                    old_m[keys@[m]].0,
                    false,
                    old_m[keys@[m]].2,
                ),
                forall|m: int| i <= m < keys@.len() ==> #[trigger] self.spec_chunks()[keys@[m]] == old_m[keys@[m]],
                forall|j: int|
                    0 <= j < out@.len() ==> {
                        &&& exists|m: int| 0 <= m < i && #[trigger] keys@[m] == out@[j].0
                        &&& old_m.contains_key(#[trigger] out@[j].0)
                        &&& old_m[out@[j].0].1
                        &&& buffers_of(out@[j].1, old_m[out@[j].0].0)
                    },
                forall|m: int|
                    0 <= m < i && #[trigger] old_m[keys@[m]].1 ==> exists|j: int|
                        0 <= j < out@.len() && #[trigger] out@[j].0 == keys@[m],
                forall|a: int, b: int| 0 <= a < b < out@.len() ==> #[trigger] out@[a].0 != #[trigger] out@[b].0,
            decreases keys@.len() - i,
        {
            let k = keys[i];
            proof {
                assert(keys@.to_set().contains(keys@[i as int]));
            }
            let ghost before = self.spec_chunks();
            let ghost before_contents = render_chunk_map_contents(self.chunks);
            proof {
                assert(before[keys@[i as int]] == old_m[keys@[i as int]]);
                assert(before_contents.contains_key(k));
                assert(before[k] == chunk_state(before_contents[k]));
            }
            let taken = self.chunks.remove(&k);
            match taken {
                Some(c) => {
                    let mut c = c;
                    assert(chunk_state(c) == old_m[k]);
                    let ghost out_before = out@;
                    if c.is_dirty() {
                        let buffers = c.mesh_buffers();
                        proof {
                            assert forall|j: int| 0 <= j < out_before.len() implies out_before[j].0 != k by {
                                let m = choose|m: int| 0 <= m < i && #[trigger] keys@[m] == out_before[j].0;
                                assert(keys@[m] != keys@[i as int]);
                            }
                        }
                        out.push((k, buffers));
                        c.mark_clean();
                    }
                    self.chunks.insert(k, c);
                    proof {
                        assert(self.spec_chunks() =~= before.insert(k, (old_m[k].0, false, old_m[k].2)));
                        assert forall|m: int| 0 <= m < i + 1 implies #[trigger] self.spec_chunks()[keys@[m]] == (
                            old_m[keys@[m]].0,
                            false,
                            old_m[keys@[m]].2,
                        ) by {
                            if m < i {
                                assert(keys@[m] != keys@[i as int]);
                            }
                        }
                        assert forall|m: int| i + 1 <= m < keys@.len() implies #[trigger] self.spec_chunks()[keys@[m]]
                            == old_m[keys@[m]] by {
                            assert(keys@[m] != keys@[i as int]);
                        }
                        assert forall|j: int| #![trigger out@[j]] 0 <= j < out@.len() implies exists|m: int|
                            0 <= m < i + 1 && #[trigger] keys@[m] == out@[j].0 by {
                            if j < out_before.len() {
                                let m = choose|m: int| 0 <= m < i && #[trigger] keys@[m] == out_before[j].0;
                                assert(keys@[m] == out@[j].0);
                            } else {
                                assert(keys@[i as int] == out@[j].0);
                            }
                        }
                        assert forall|m: int|
                            0 <= m < i + 1 && #[trigger] old_m[keys@[m]].1 implies exists|j: int|
                            0 <= j < out@.len() && #[trigger] out@[j].0 == keys@[m] by {
                            if m < i {
                                let j = choose|j: int| 0 <= j < out_before.len() && #[trigger] out_before[j].0 == keys@[m];
                                assert(out@[j].0 == keys@[m]);
                            } else {
                                assert(out@[out@.len() - 1].0 == keys@[m]);
                            }
                        }
                    }
                },
                None => {
                    proof {
                        assert(false);
                    }
                },
            }
            i = i + 1;
        }
        proof {
            let target = old_m.map_values(|c: (Seq<Option<TileMeshData>>, bool, u32)| (c.0, false, c.2));
            assert forall|k: ChunkKey| old_m.contains_key(k) implies self.spec_chunks()[k] == target[k] by {
                assert(keys@.to_set().contains(k));
                let m = choose|m: int| 0 <= m < keys@.len() && keys@[m] == k;
                assert(self.spec_chunks()[keys@[m]] == (old_m[keys@[m]].0, false, old_m[keys@[m]].2));
            }
            assert(self.spec_chunks() =~= target);
            assert forall|k: ChunkKey| #[trigger] old_m.contains_key(k) && old_m[k].1 implies exists|j: int|
                0 <= j < out@.len() && #[trigger] out@[j].0 == k by {
                assert(keys@.to_set().contains(k));
                let m = choose|m: int| 0 <= m < keys@.len() && keys@[m] == k;
                assert(old_m[keys@[m]].1);
            }
        }
        out
    }

    /// Brings the changes of a tilemap's storage into its render chunks: the
    /// changed tiles in order, then the changed chunks in order, each slot of a
    /// chunk that is there brought in, the render chunk of a chunk that is gone
    /// removed.
    pub fn apply_changes(&mut self, changes: &TilemapChanges)
        requires
            old(self).spec_chunk_size() * old(self).spec_chunk_size() <= u32::MAX,
            ops_ok(old(self).spec_chunks(), old(self).spec_chunk_size(), change_ops(*changes)),
        ensures
            final(self).spec_chunk_size() == old(self).spec_chunk_size(),
            final(self).spec_chunks() == apply_ops(old(self).spec_chunks(), old(self).spec_chunk_size(), change_ops(*changes)),
    {
        let ghost cs = self.spec_chunk_size();
        let ghost target = apply_ops(self.spec_chunks(), cs, change_ops(*changes));
        let ghost tile_ops = Seq::new(
            changes.changed_tiles@.len(),
            |i: int| RenderOp::Update(changes.changed_tiles@[i].0, changes.changed_tiles@[i].1),
        );
        let ghost rest_chunks = chunks_ops(changes.changed_chunks@);
        let mut i: usize = 0;
        proof {
            assert(tile_ops.skip(0) + rest_chunks =~= change_ops(*changes));
        }
        while i < changes.changed_tiles.len()
            invariant
                i <= changes.changed_tiles@.len(),
                self.spec_chunk_size() == cs,
                cs * cs <= u32::MAX,
                tile_ops.len() == changes.changed_tiles@.len(),
                forall|j: int|
                    0 <= j < tile_ops.len() ==> #[trigger] tile_ops[j] == RenderOp::Update(
                        changes.changed_tiles@[j].0,
                        changes.changed_tiles@[j].1,
                    ),
                rest_chunks == chunks_ops(changes.changed_chunks@),
                apply_ops(self.spec_chunks(), cs, tile_ops.skip(i as int) + rest_chunks) == target,
                ops_ok(self.spec_chunks(), cs, tile_ops.skip(i as int) + rest_chunks),
            decreases changes.changed_tiles@.len() - i,
        {
            let ghost rest = tile_ops.skip(i as int) + rest_chunks;
            proof {
                lemma_ops_step(self.spec_chunks(), cs, rest);
                assert(rest[0] == tile_ops[i as int]);
                assert(rest.drop_first() =~= tile_ops.skip(i + 1) + rest_chunks);
            }
            let (index, tile) = &changes.changed_tiles[i];
            self.update_tile(index, tile);
            i = i + 1;
        }
        proof {
            assert(tile_ops.skip(i as int) + rest_chunks =~= rest_chunks);
            assert(changes.changed_chunks@.skip(0) =~= changes.changed_chunks@);
        }
        let mut j: usize = 0;
        while j < changes.changed_chunks.len()
            invariant
                j <= changes.changed_chunks@.len(),
                self.spec_chunk_size() == cs,
                cs * cs <= u32::MAX,
                apply_ops(self.spec_chunks(), cs, chunks_ops(changes.changed_chunks@.skip(j as int))) == target,
                ops_ok(self.spec_chunks(), cs, chunks_ops(changes.changed_chunks@.skip(j as int))),
            decreases changes.changed_chunks@.len() - j,
        {
            let ghost here = changes.changed_chunks@.skip(j as int);
            let ghost after = changes.changed_chunks@.skip(j + 1);
            let (index, chunk) = &changes.changed_chunks[j];
            proof {
                assert(here.drop_first() =~= after);
                assert(here[0] == changes.changed_chunks@[j as int]);
            }
            match chunk {
                Some(c) => {
                    let ghost slots = c@;
                    let ghost ops = chunk_ops(*index, Some(slots));
                    let mut k: usize = 0;
                    proof {
                        assert(ops.skip(0) + chunks_ops(after) =~= chunks_ops(here));
                    }
                    while k < c.0.len()
                        invariant
                            k <= slots.len(),
                            slots == c@,
                            ops == chunk_ops(*index, Some(slots)),
                            self.spec_chunk_size() == cs,
                            cs * cs <= u32::MAX,
                            apply_ops(self.spec_chunks(), cs, ops.skip(k as int) + chunks_ops(after)) == target,
                            ops_ok(self.spec_chunks(), cs, ops.skip(k as int) + chunks_ops(after)),
                        decreases slots.len() - k,
                    {
                        let ghost rest = ops.skip(k as int) + chunks_ops(after);
                        let at = FlattenedTileIndex { chunk_index: *index, in_chunk_index: k };
                        proof {
                            lemma_ops_step(self.spec_chunks(), cs, rest);
                            assert(rest[0] == RenderOp::Update(at, slots[k as int]));
                            assert(rest.drop_first() =~= ops.skip(k + 1) + chunks_ops(after));
                        }
                        self.update_tile(&at, &c.0[k]);
                        k = k + 1;
                    }
                    proof {
                        assert(ops.skip(k as int) + chunks_ops(after) =~= chunks_ops(after));
                    }
                },
                None => {
                    proof {
                        let rest = chunks_ops(here);
                        lemma_ops_step(self.spec_chunks(), cs, rest);
                        assert(rest[0] == RenderOp::RemoveChunk(index.key()));
                        assert(rest.drop_first() =~= chunks_ops(after));
                    }
                    let k = index.to_key();
                    self.remove_chunk(&k);
                },
            }
            j = j + 1;
        }
        proof {
            assert(chunks_ops(changes.changed_chunks@.skip(j as int)) =~= Seq::<RenderOp>::empty());
        }
    }
}

} // verus!
