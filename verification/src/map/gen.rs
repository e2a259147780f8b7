//! The placeholder generation of a body's tilemap: a ten by ten patch of
//! tiles whose atlases are picked at random among the first two of the
//! first two textures.

use vstd::prelude::*;

use crate::map::render::extract::VisibilityKind;
use crate::map::serde::TilemapBundle;
use crate::map::shape::{rectangle, spec_rectangle};
use crate::map::storage::{cube, map_slot, set_chunks, ChunkKey, DEFAULT_CHUNK_SIZE};
use crate::map::tilemap::{
    direct_slot, spec_from_direct, texture_layout_ok, ColorBits, FilterMode, Tile, TileAtlasIndex, TileFlip,
    TileIndex, TileKey, TileRenderSize, TileStaticAtlas, TilemapAnimations, TilemapStorage, TilemapTexture,
    TilemapTextureDescriptor, TilemapTilesets, TilemapTint, ONE_BITS,
};
use crate::math::{lemma_trunc_div_rem, IVec3, UVec2};
use vstd::string::StringExecFns;

verus! {

/// Marks a body whose tilemap is to be generated.
pub struct ToGenerateMap;

/// How many tiles a generated tilemap has along each axis.
pub const GENERATED_SIDE: u32 = 10;

/// The bit pattern of `32.0f32`, the width of a generated map's tiles.
pub const GENERATED_TILE_WIDTH_BITS: u32 = 0x4200_0000;

/// The bit pattern of `16.0f32`, the height of a generated map's tiles.
pub const GENERATED_TILE_HEIGHT_BITS: u32 = 0x4180_0000;

/// `rand::random::<u32>()`: a `u32` from the thread-local generator.
/// Nothing is claimed of which: the result rests on chance.
#[verifier::external_body]
fn random_u32() -> (r: u32) {
    rand::random::<u32>()
}

/// The direct index of the generated tile at `p` of the patch: the
/// downward triangle with those first two coordinates.
pub open spec fn generated_direct(p: UVec2) -> IVec3 {
    IVec3 { x: p.x as i32, y: p.y as i32, z: (1 - p.x - p.y) as i32 }
}

/// The generated tile at `p`, whose atlas is picked by `choice`: texture
/// `choice.0 % 2`, atlas `choice.1 % 2`, not flipped, white and visible.
pub open spec fn generated_tile(p: UVec2, choice: (u32, u32)) -> Tile {
    let d = generated_direct(p);
    Tile {
        index: TileIndex::spec_from_parts(d, spec_from_direct(d, DEFAULT_CHUNK_SIZE)),
        atlas_index: TileAtlasIndex::Static(
            TileStaticAtlas { texture: choice.0 % 2, atlas: choice.1 % 2, flip: TileFlip::spec_with_bits(0) },
        ),
        tint: ColorBits { red: ONE_BITS, green: ONE_BITS, blue: ONE_BITS, alpha: ONE_BITS },
        visible: true,
    }
}

/// The generated tiles, in the order of the patch's points, one choice each.
pub open spec fn generated_tiles(choices: Seq<(u32, u32)>) -> Seq<Tile> {
    Seq::new(
        choices.len(),
        |i: int| generated_tile(spec_rectangle(GENERATED_SIDE as int, GENERATED_SIDE as int)[i], choices[i]),
    )
}

/// The chunks after the tiles are set one after the other into `m`.
pub open spec fn put_tiles(m: Map<ChunkKey, Seq<Option<Tile>>>, cs: u32, tiles: Seq<Tile>) -> Map<
    ChunkKey,
    Seq<Option<Tile>>,
>
    decreases tiles.len(),
{
    if tiles.len() == 0 {
        m
    } else {
        let t = tiles.last();
        set_chunks(
            put_tiles(m, cs, tiles.drop_last()),
            cs,
            t.index.spec_flattend().chunk_index.key(),
            t.index.spec_flattend().in_chunk_index as int,
            t,
        )
    }
}

/// The keys of the tiles.
pub open spec fn tile_keys(tiles: Seq<Tile>) -> Set<TileKey> {
    tiles.map_values(|t: Tile| t.index.spec_flattend().key()).to_set()
}

/// `r` is the tilemap generated with the atlas choices `choices`: tiles of
/// `32 x 16`, the default chunk size, the generated tiles set in order (and
/// recorded as changed), white, the two test tilesets filtered by nearest
/// texel, no animation, and hidden until it is shown.
pub open spec fn generated_from(r: TilemapBundle, choices: Seq<(u32, u32)>) -> bool {
    let tiles = generated_tiles(choices);
    &&& r.visibility == VisibilityKind::Hidden
    &&& r.tile_render_size == (TileRenderSize { x: GENERATED_TILE_WIDTH_BITS, y: GENERATED_TILE_HEIGHT_BITS })
    &&& r.storgae.spec_chunk_size() == DEFAULT_CHUNK_SIZE
    &&& r.storgae.chunks() == put_tiles(Map::empty(), DEFAULT_CHUNK_SIZE, tiles)
    &&& r.storgae.spec_changed_tiles() == tile_keys(tiles)
    &&& r.storgae.spec_changed_chunks().is_empty()
    &&& r.tint.0 == (ColorBits { red: ONE_BITS, green: ONE_BITS, blue: ONE_BITS, alpha: ONE_BITS })
    &&& r.tilesets.spec_filter_mode() == FilterMode::Nearest
    &&& r.tilesets.spec_size() == (UVec2 { x: 32, y: 32 })
    &&& r.tilesets.spec_textures().len() == 2
    &&& r.tilesets.spec_textures()[0].handle@ == "images/test_tileset_a.png"@
    &&& r.tilesets.spec_textures()[1].handle@ == "images/test_tileset_b.png"@
    &&& forall|i: int|
        0 <= i < 2 ==> (#[trigger] r.tilesets.spec_textures()[i]).desc == (TilemapTextureDescriptor {
            size: UVec2 { x: 32, y: 32 },
            tile_size: UVec2 { x: 32, y: 16 },
        })
    &&& r.animations@ == seq![0u32]
}

/// A slot of a chunk of size eight lies inside the chunk.
proof fn lemma_slot_in_chunk(d: IVec3)
    ensures
        0 <= direct_slot(d, DEFAULT_CHUNK_SIZE as int) < cube(DEFAULT_CHUNK_SIZE),
{
    lemma_trunc_div_rem(d.x as int, 8);
    lemma_trunc_div_rem(d.y as int, 8);
    lemma_trunc_div_rem(d.z as int, 8);
    assert(cube(DEFAULT_CHUNK_SIZE) == 512);
}

/// Every chunk of the map has `cube(cs)` slots.
pub open spec fn full_chunks(m: Map<ChunkKey, Seq<Option<Tile>>>, cs: u32) -> bool {
    forall|k: ChunkKey| m.contains_key(k) ==> #[trigger] m[k].len() == cube(cs)
}

/// The texture `path` of `32 x 32` cut into tiles of `32 x 16`.
fn test_texture(path: &str) -> (r: TilemapTexture)
    ensures
        r.handle@ == path@,
        r.desc == (TilemapTextureDescriptor { size: UVec2 { x: 32, y: 32 }, tile_size: UVec2 { x: 32, y: 16 } }),
{
    TilemapTexture {
        handle: String::from_str(path),
        desc: TilemapTextureDescriptor { size: UVec2 { x: 32, y: 32 }, tile_size: UVec2 { x: 32, y: 16 } },
    }
}

/// The tilemap generated with the atlas choices `choices`, one per tile of
/// the patch, in the order of its points.
pub fn generated_tilemap(choices: &Vec<(u32, u32)>) -> (r: TilemapBundle)
    requires
        choices@.len() == GENERATED_SIDE * GENERATED_SIDE,
    ensures
        generated_from(r, choices@),
{
    let points = rectangle(GENERATED_SIDE, GENERATED_SIDE);
    let ghost tiles = generated_tiles(choices@);
    let mut storage = TilemapStorage::default();
    let mut i: usize = 0;
    while i < points.len()
        invariant
            i <= points@.len(),
            points@ == spec_rectangle(GENERATED_SIDE as int, GENERATED_SIDE as int),
            points@.len() == 100,
            choices@.len() == 100,
            tiles == generated_tiles(choices@),
            storage.spec_chunk_size() == DEFAULT_CHUNK_SIZE,
            storage.chunks() == put_tiles(Map::empty(), DEFAULT_CHUNK_SIZE, tiles.take(i as int)),
            full_chunks(storage.chunks(), DEFAULT_CHUNK_SIZE),
            storage.spec_changed_tiles() == tile_keys(tiles.take(i as int)),
            storage.spec_changed_chunks().is_empty(),
        decreases points@.len() - i,
    {
        let p = points[i];
        assert(p.x < 10 && p.y < 10);
        let (a, b) = choices[i];
        let d = IVec3 { x: p.x as i32, y: p.y as i32, z: 1 - p.x as i32 - p.y as i32 };
        proof {
            lemma_slot_in_chunk(d);
        }
        let index = TileIndex::new(d, DEFAULT_CHUNK_SIZE);
        proof {
            index.lemma_parts(d, spec_from_direct(d, DEFAULT_CHUNK_SIZE));
        }
        let tile = Tile {
            index,
            atlas_index: TileAtlasIndex::Static(TileStaticAtlas::from((a % 2, b % 2))),
            tint: ColorBits::white(),
            visible: true,
        };
        assert(tile == tiles[i as int]);
        storage.set(tile);
        proof {
            let next = tiles.take(i + 1);
            assert(next.drop_last() =~= tiles.take(i as int));
            let k = tile.index.spec_flattend().chunk_index.key();
            assert forall|key: ChunkKey| storage.chunks().contains_key(key) implies #[trigger] storage.chunks()[key].len()
                == cube(DEFAULT_CHUNK_SIZE) by {
                if key != k {
                    assert(storage.chunks()[key] == put_tiles(Map::empty(), DEFAULT_CHUNK_SIZE, tiles.take(i as int))[key]);
                }
            }
            tiles.take(i as int).map_values(|t: Tile| t.index.spec_flattend().key()).lemma_push_to_set_commute(
                tile.index.spec_flattend().key(),
            );
            assert(next.map_values(|t: Tile| t.index.spec_flattend().key()) =~= tiles.take(i as int).map_values(
                |t: Tile| t.index.spec_flattend().key(),
            ).push(tile.index.spec_flattend().key()));
        }
        i = i + 1;
    }
    proof {
        assert(tiles.take(100) =~= tiles);
        reveal_strlit("images/test_tileset_a.png");
        reveal_strlit("images/test_tileset_b.png");
    }
    let mut textures: Vec<TilemapTexture> = Vec::new();
    textures.push(test_texture("images/test_tileset_a.png"));
    textures.push(test_texture("images/test_tileset_b.png"));
    assert forall|j: int| 0 <= j < textures@.len() implies texture_layout_ok(#[trigger] textures@[j]) by {
        assert(textures@[j].desc.tile_size == (UVec2 { x: 32, y: 16 }));
        assert(textures@[j].desc.size == (UVec2 { x: 32, y: 32 }));
    }
    let tilesets = TilemapTilesets::new(textures, FilterMode::Nearest);
    proof {
        reveal_with_fuel(crate::map::tilemap::max_texture_size, 3);
        assert(tilesets.spec_textures().take(1).drop_last() =~= Seq::<TilemapTexture>::empty());
        assert(tilesets.spec_textures().drop_last().drop_last() =~= Seq::<TilemapTexture>::empty());
    }
    TilemapBundle {
        tile_render_size: TileRenderSize { x: GENERATED_TILE_WIDTH_BITS, y: GENERATED_TILE_HEIGHT_BITS },
        storgae: storage,
        tint: TilemapTint(ColorBits::white()),
        tilesets,
        animations: TilemapAnimations::default(),
        visibility: VisibilityKind::Hidden,
    }
}

/// A generated tilemap, its atlas choices drawn at random: the tilemap that
/// [`generated_tilemap`] makes of some choices.
pub fn generate_map() -> (r: TilemapBundle)
    ensures
        exists|choices: Seq<(u32, u32)>| choices.len() == 100 && generated_from(r, choices),
{
    let mut choices: Vec<(u32, u32)> = Vec::new();
    let mut i: u32 = 0;
    while i < GENERATED_SIDE * GENERATED_SIDE
        invariant
            i <= 100,
            choices@.len() == i,
        decreases 100 - i,
    {
        let texture = random_u32();
        let atlas = random_u32();
        choices.push((texture, atlas));
        i = i + 1;
    }
    let r = generated_tilemap(&choices);
    assert(choices@.len() == 100 && generated_from(r, choices@));
    r
}

proof fn lemma_put_full(m: Map<ChunkKey, Seq<Option<Tile>>>, cs: u32, tiles: Seq<Tile>)
    requires
        full_chunks(m, cs),
        forall|j: int| 0 <= j < tiles.len() ==> (#[trigger] tiles[j]).index.spec_flattend().in_chunk_index < cube(cs),
    ensures
        full_chunks(put_tiles(m, cs, tiles), cs),
    decreases tiles.len(),
{
    if tiles.len() > 0 {
        let rest = tiles.drop_last();
        assert forall|j: int| 0 <= j < rest.len() implies (#[trigger] rest[j]).index.spec_flattend().in_chunk_index
            < cube(cs) by {
            assert(rest[j] == tiles[j]);
        }
        lemma_put_full(m, cs, rest);
        assert(tiles.last() == tiles[tiles.len() - 1]);
    }
}

/// Where every tile names its own slot, inside a chunk of `cube(cs)` slots,
/// each tile set one after the other is found in its slot afterwards.
proof fn lemma_put_read(m: Map<ChunkKey, Seq<Option<Tile>>>, cs: u32, tiles: Seq<Tile>, i: int)
    requires
        full_chunks(m, cs),
        forall|j: int| 0 <= j < tiles.len() ==> (#[trigger] tiles[j]).index.spec_flattend().in_chunk_index < cube(cs),
        forall|a: int, b: int|
            0 <= a < b < tiles.len() ==> (#[trigger] tiles[a]).index.spec_flattend().key() != (
            #[trigger] tiles[b]).index.spec_flattend().key(),
        0 <= i < tiles.len(),
    ensures
        map_slot(
            put_tiles(m, cs, tiles),
            tiles[i].index.spec_flattend().chunk_index.key(),
            tiles[i].index.spec_flattend().in_chunk_index as int,
        ) == Some(tiles[i]),
    decreases tiles.len(),
{
    let rest = tiles.drop_last();
    let last = tiles[tiles.len() - 1];
    let f = last.index.spec_flattend();
    assert forall|j: int| 0 <= j < rest.len() implies (#[trigger] rest[j]).index.spec_flattend().in_chunk_index
        < cube(cs) by {
        assert(rest[j] == tiles[j]);
    }
    lemma_put_full(m, cs, rest);
    let before = put_tiles(m, cs, rest);
    let g = tiles[i].index.spec_flattend();
    crate::map::storage::law_slot_after_set(
        before,
        cs,
        f.chunk_index.key(),
        f.in_chunk_index as int,
        last,
        g.chunk_index.key(),
        g.in_chunk_index as int,
    );
    if i < tiles.len() - 1 {
        assert forall|a: int, b: int|
            0 <= a < b < rest.len() implies (#[trigger] rest[a]).index.spec_flattend().key() != (
            #[trigger] rest[b]).index.spec_flattend().key() by {
            assert(rest[a] == tiles[a] && rest[b] == tiles[b]);
        }
        lemma_put_read(m, cs, rest, i);
        assert(rest[i] == tiles[i]);
        assert(tiles[i].index.spec_flattend().key() != tiles[tiles.len() - 1].index.spec_flattend().key());
    }
}

/// Two points of the patch that differ get different slots.
proof fn lemma_generated_keys_distinct(a: int, b: int)
    requires
        0 <= a < 100,
        0 <= b < 100,
        a != b,
    ensures
        ({
            let pa = spec_rectangle(10, 10)[a];
            let pb = spec_rectangle(10, 10)[b];
            spec_from_direct(generated_direct(pa), DEFAULT_CHUNK_SIZE).key() != spec_from_direct(
                generated_direct(pb),
                DEFAULT_CHUNK_SIZE,
            ).key()
        }),
{
    let pa = spec_rectangle(10, 10)[a];
    let pb = spec_rectangle(10, 10)[b];
    let da = generated_direct(pa);
    let db = generated_direct(pb);
    let xa = a / 10;
    let ya = a % 10;
    let xb = b / 10;
    let yb = b % 10;
    assert(pa.x == xa && pa.y == ya && pb.x == xb && pb.y == yb);
    assert(da.x == xa && da.y == ya && db.x == xb && db.y == yb);
    lemma_trunc_div_rem(da.z as int, 8);
    lemma_trunc_div_rem(db.z as int, 8);
    let fa = spec_from_direct(da, DEFAULT_CHUNK_SIZE);
    let fb = spec_from_direct(db, DEFAULT_CHUNK_SIZE);
    if fa.key() == fb.key() {
        let sa = xa % 8 + (ya % 8) * 8;
        let sb = xb % 8 + (yb % 8) * 8;
        let ca = crate::map::tilemap::abs(crate::math::trunc_rem(da.z as int, 8));
        let cb = crate::map::tilemap::abs(crate::math::trunc_rem(db.z as int, 8));
        assert(direct_slot(da, 8) == sa + ca * 64);
        assert(direct_slot(db, 8) == sb + cb * 64);
        assert(sa + ca * 64 == sb + cb * 64);
        assert(ca == cb);
        assert(xa % 8 == xb % 8 && ya % 8 == yb % 8);
        assert(xa / 8 == xb / 8 && ya / 8 == yb / 8);
        assert(xa == xb && ya == yb);
        assert(a == b);
    }
}

/// Every tile of a generated tilemap is found at its index: the patch's
/// tiles name different slots, and each is read back as it was generated.
pub proof fn law_generated_tiles_readable(choices: Seq<(u32, u32)>, i: int)
    requires
        choices.len() == 100,
        0 <= i < 100,
    ensures
        ({
            let tiles = generated_tiles(choices);
            let f = tiles[i].index.spec_flattend();
            map_slot(
                put_tiles(Map::empty(), DEFAULT_CHUNK_SIZE, tiles),
                f.chunk_index.key(),
                f.in_chunk_index as int,
            ) == Some(tiles[i])
        }),
{
    let tiles = generated_tiles(choices);
    assert forall|j: int| 0 <= j < tiles.len() implies (#[trigger] tiles[j]).index.spec_flattend().in_chunk_index
        < cube(DEFAULT_CHUNK_SIZE) by {
        let d = generated_direct(spec_rectangle(10, 10)[j]);
        tiles[j].index.lemma_parts(d, spec_from_direct(d, DEFAULT_CHUNK_SIZE));
        lemma_slot_in_chunk(d);
    }
    assert forall|a: int, b: int|
        0 <= a < b < tiles.len() implies (#[trigger] tiles[a]).index.spec_flattend().key() != (
        #[trigger] tiles[b]).index.spec_flattend().key() by {
        let da = generated_direct(spec_rectangle(10, 10)[a]);
        let db = generated_direct(spec_rectangle(10, 10)[b]);
        tiles[a].index.lemma_parts(da, spec_from_direct(da, DEFAULT_CHUNK_SIZE));
        tiles[b].index.lemma_parts(db, spec_from_direct(db, DEFAULT_CHUNK_SIZE));
        lemma_generated_keys_distinct(a, b);
    }
    lemma_put_read(Map::empty(), DEFAULT_CHUNK_SIZE, tiles, i);
}

} // verus!
