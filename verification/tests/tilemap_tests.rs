use dystopia_core::map::storage::{Chunk, ChunkedStorage, DEFAULT_CHUNK_SIZE};
use dystopia_core::map::tilemap::{
    ChunkedTileIndex, ColorBits, FilterMode, FlattenedTileIndex, Tile, TileAtlasIndex, TileFlip,
    TileIndex, TileStaticAtlas, TilemapAnimations, TilemapStorage, TilemapTexture,
    TilemapTextureDescriptor, TilemapTilesets, ONE_BITS,
};
use dystopia_core::math::{IVec3, UVec2, UVec3};

fn tile_at(x: i32, y: i32, z: i32, cs: u32, texture: u32) -> Tile {
    Tile {
        index: TileIndex::new(IVec3::new(x, y, z), cs),
        atlas_index: TileAtlasIndex::Static(TileStaticAtlas::new(texture, 0, TileFlip::none())),
        ..Default::default()
    }
}

fn texture_of(t: &Tile) -> u32 {
    match t.atlas_index {
        TileAtlasIndex::Static(s) => s.texture,
        TileAtlasIndex::Animated { .. } => panic!("not static"),
    }
}

#[test]
fn flip_bits() {
    assert_eq!(TileFlip::none().bits(), 0);
    assert_eq!(TileFlip::vertical().bits(), 1);
    assert_eq!(TileFlip::horizontal().bits(), 2);
    assert_eq!(TileFlip::both().bits(), 3);
    assert_eq!(TileFlip::from_bits(2).unwrap().bits(), 2);
    assert!(TileFlip::from_bits(4).is_none());
    assert!(TileFlip::from_bits(0x8000_0000).is_none());
}

#[test]
fn encode_packs_flip_in_high_bits() {
    let a = TileStaticAtlas::new(5, 7, TileFlip::both());
    let e = a.encode();
    assert_eq!(e.texture, 5);
    assert_eq!(e.atlas, 7 | (3 << 30));
    assert_eq!(e.flip.bits(), 0);
    let h = TileStaticAtlas::new(1, 0x10, TileFlip::horizontal()).encode();
    assert_eq!(h.atlas, 0x8000_0010);
}

#[test]
fn decode_unpacks_flip() {
    let e = TileStaticAtlas::new(9, 0x4000_0003, TileFlip::none());
    let d = e.decode();
    assert_eq!(d.texture, 9);
    assert_eq!(d.atlas, 3);
    assert_eq!(d.flip.bits(), 1);
}

#[test]
fn decode_encode_roundtrip() {
    for flip in 0..4u32 {
        for atlas in [0u32, 1, 12345, 0x3FFF_FFFF] {
            let a = TileStaticAtlas::new(2, atlas, TileFlip::from_bits(flip).unwrap());
            let d = a.encode().decode();
            assert_eq!(d.texture, 2);
            assert_eq!(d.atlas, atlas);
            assert_eq!(d.flip.bits(), flip);
        }
    }
}

#[test]
fn encode_with_atlas_using_high_bits_xors_the_flip() {
    let a = TileStaticAtlas::new(0, 0xC000_0001, TileFlip::horizontal());
    assert_eq!(a.encode().atlas, 0x4000_0001);
}

#[test]
fn from_direct_positive() {
    let f = FlattenedTileIndex::from_direct(IVec3::new(9, 2, 17), 8);
    assert_eq!(f.chunk_index, IVec3::new(1, 0, 2));
    assert_eq!(f.in_chunk_index, 1 + 2 * 8 + 1 * 64);
}

#[test]
fn from_direct_negative_truncates_towards_zero() {
    let f = FlattenedTileIndex::from_direct(IVec3::new(-1, -9, 0), 8);
    assert_eq!(f.chunk_index, IVec3::new(0, -1, 0));
    assert_eq!(f.in_chunk_index, 1 + 1 * 8);
    let g = FlattenedTileIndex::from_direct(IVec3::new(1, -9, 0), 8);
    assert_eq!(f, g);
}

#[test]
fn from_chunked_lays_out_x_major() {
    let f = FlattenedTileIndex::from_chunked(
        ChunkedTileIndex { chunk_index: IVec3::new(3, -1, 0), in_chunk_index: UVec3 { x: 1, y: 2, z: 3 } },
        4,
    );
    assert_eq!(f.chunk_index, IVec3::new(3, -1, 0));
    assert_eq!(f.in_chunk_index, 1 + 2 * 4 + 3 * 16);
}

#[test]
fn tile_index_keeps_both_forms() {
    let t = TileIndex::new(IVec3::new(1, 1, 0), 8);
    assert_eq!(t.direct(), IVec3::new(1, 1, 0));
    assert_eq!(t.flattend(), FlattenedTileIndex::from_direct(IVec3::new(1, 1, 0), 8));
}

#[test]
fn default_tile() {
    let t = Tile::default();
    assert!(t.visible);
    assert_eq!(t.tint, ColorBits { red: ONE_BITS, green: ONE_BITS, blue: ONE_BITS, alpha: ONE_BITS });
    assert_eq!(t.index.direct(), IVec3::new(0, 0, 0));
}

#[test]
fn storage_get_after_set() {
    let mut s = TilemapStorage::new(4);
    assert_eq!(s.chunk_size(), 4);
    assert!(s.get(IVec3::new(1, 0, 0)).is_none());
    let old = s.set(tile_at(1, 0, 0, 4, 7));
    assert!(old.is_none());
    let got = s.get(IVec3::new(1, 0, 0)).unwrap();
    assert_eq!(texture_of(got), 7);
    assert!(s.get(IVec3::new(0, 1, 0)).is_none());
    let f = FlattenedTileIndex::from_direct(IVec3::new(1, 0, 0), 4);
    assert!(s.changed_tiles().contains(&f));
    assert!(!s.changed_chunks().contains(&IVec3::new(0, 0, 0)));
}

#[test]
fn storage_set_replaces_and_returns_old() {
    let mut s = TilemapStorage::new(4);
    s.set(tile_at(0, 1, 0, 4, 1));
    let old = s.set(tile_at(0, 1, 0, 4, 2)).unwrap();
    assert_eq!(texture_of(&old), 1);
    assert_eq!(texture_of(s.get(IVec3::new(0, 1, 0)).unwrap()), 2);
}

#[test]
fn storage_set_creates_chunk_of_cube_size() {
    let mut s = TilemapStorage::new(3);
    s.set(tile_at(1, 0, 0, 3, 1));
    let c = s.get_chunk(IVec3::new(0, 0, 0)).unwrap();
    assert_eq!(c.len(), 27);
    assert!(s.get_chunk(IVec3::new(1, 0, 0)).is_none());
}

#[test]
fn storage_remove() {
    let mut s = TilemapStorage::new(4);
    s.set(tile_at(2, 0, 0, 4, 5));
    s.clear_changes();
    let r = s.remove(IVec3::new(2, 0, 0)).unwrap();
    assert_eq!(texture_of(&r), 5);
    assert!(s.get(IVec3::new(2, 0, 0)).is_none());
    assert!(s.remove(IVec3::new(2, 0, 0)).is_none());
    assert!(s.remove(IVec3::new(100, 0, 0)).is_none());
    assert!(s.changed_tiles().contains(&FlattenedTileIndex::from_direct(IVec3::new(2, 0, 0), 4)));
}

#[test]
fn storage_chunked_and_flattened_access() {
    let mut s = TilemapStorage::new(4);
    s.set(tile_at(1, 1, 0, 4, 9));
    let ci = ChunkedTileIndex { chunk_index: IVec3::new(0, 0, 0), in_chunk_index: UVec3 { x: 1, y: 1, z: 0 } };
    assert_eq!(texture_of(s.chunked_get(ci).unwrap()), 9);
    let f = FlattenedTileIndex::from_chunked(ci, 4);
    assert_eq!(texture_of(s.flattened_get(f).unwrap()), 9);
    assert_eq!(texture_of(&s.chunked_remove(ci).unwrap()), 9);
    assert!(s.flattened_get(f).is_none());
}

#[test]
fn storage_get_mut_writes_through() {
    let mut s = TilemapStorage::new(4);
    s.set(tile_at(1, 0, 0, 4, 1));
    s.clear_changes();
    {
        let t = s.get_mut(IVec3::new(1, 0, 0)).unwrap();
        t.visible = false;
    }
    assert!(!s.get(IVec3::new(1, 0, 0)).unwrap().visible);
    assert!(s.changed_tiles().contains(&FlattenedTileIndex::from_direct(IVec3::new(1, 0, 0), 4)));
    assert!(s.get_mut(IVec3::new(0, 1, 0)).is_none());
    assert!(s.changed_tiles().contains(&FlattenedTileIndex::from_direct(IVec3::new(0, 1, 0), 4)));
}

#[test]
fn storage_chunks() {
    let mut s = TilemapStorage::new(2);
    let mut slots = vec![None; 8];
    slots[3] = Some(tile_at(1, 1, 0, 2, 4));
    assert!(s.set_chunk(IVec3::new(5, 5, 5), Chunk::from_vec(slots)).is_none());
    assert!(s.changed_chunks().contains(&IVec3::new(5, 5, 5)));
    assert_eq!(s.get_chunk(IVec3::new(5, 5, 5)).unwrap().len(), 8);
    {
        let c = s.get_chunk_mut(IVec3::new(5, 5, 5)).unwrap();
        c.0[0] = Some(tile_at(1, 0, 0, 2, 6));
    }
    let c = s.get_chunk(IVec3::new(5, 5, 5)).unwrap();
    assert_eq!(texture_of(c.0[0].as_ref().unwrap()), 6);
    let removed = s.remove_chunk(IVec3::new(5, 5, 5)).unwrap();
    assert_eq!(removed.len(), 8);
    assert!(s.get_chunk(IVec3::new(5, 5, 5)).is_none());
    assert!(s.remove_chunk(IVec3::new(5, 5, 5)).is_none());
}

#[test]
fn storage_clear_records_every_chunk() {
    let mut s = TilemapStorage::default();
    assert_eq!(s.chunk_size(), DEFAULT_CHUNK_SIZE);
    s.set(tile_at(1, 0, 0, 8, 1));
    s.set(tile_at(17, 0, -15, 8, 1));
    s.clear_changes();
    s.clear();
    assert!(s.get_chunk(IVec3::new(0, 0, 0)).is_none());
    assert!(s.get_chunk(IVec3::new(2, 0, -1)).is_none());
    assert!(s.changed_chunks().contains(&IVec3::new(0, 0, 0)));
    assert!(s.changed_chunks().contains(&IVec3::new(2, 0, -1)));
    assert!(!s.changed_chunks().contains(&IVec3::new(1, 0, 0)));
}

#[test]
fn chunked_storage_direct_use() {
    let mut s = ChunkedStorage::new(2);
    let f = FlattenedTileIndex { chunk_index: IVec3::new(0, 0, 0), in_chunk_index: 7 };
    assert!(s.get(&f).is_none());
    s.set(f, tile_at(1, 0, 0, 2, 3));
    assert_eq!(texture_of(s.get(&f).unwrap()), 3);
    let keys = s.keys();
    assert_eq!(keys, vec![(0, 0, 0)]);
    assert_eq!(texture_of(&s.remove(&f).unwrap()), 3);
    s.clear();
    assert!(s.keys().is_empty());
}

#[test]
fn tilesets_size_is_the_maximum() {
    let t = TilemapTilesets::new(
        vec![
            TilemapTexture {
                handle: "a.png".to_string(),
                desc: TilemapTextureDescriptor { size: UVec2::new(32, 64), tile_size: UVec2::new(32, 16) },
            },
            TilemapTexture {
                handle: "b.png".to_string(),
                desc: TilemapTextureDescriptor { size: UVec2::new(96, 16), tile_size: UVec2::new(32, 16) },
            },
        ],
        FilterMode::Linear,
    );
    assert_eq!(t.size(), UVec2::new(96, 64));
    assert_eq!(t.filter_mode(), FilterMode::Linear);
    assert_eq!(t.textures().len(), 2);
    assert_eq!(t.textures()[1].handle, "b.png");
}

#[test]
fn animations_layout() {
    let mut a = TilemapAnimations::default();
    assert_eq!(a.bytes(), &vec![0]);
    let anim = a.register(
        vec![
            TileStaticAtlas::new(1, 2, TileFlip::none()),
            TileStaticAtlas::new(3, 4, TileFlip::vertical()),
        ],
        12,
    );
    assert_eq!(anim.start(), 2);
    assert_eq!(anim.len(), 2);
    assert_eq!(a.bytes(), &vec![0, 12, 1, 2, 3, 4 | (1 << 30)]);
    let b = a.register(vec![TileStaticAtlas::new(5, 6, TileFlip::none())], 30);
    assert_eq!(b.start(), 7);
    assert_eq!(b.len(), 1);
    assert_eq!(a.bytes(), &vec![0, 12, 1, 2, 3, 4 | (1 << 30), 30, 5, 6]);
}
