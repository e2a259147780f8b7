use dystopia_core::map::serde::{
    atlas_from_binary, atlas_to_binary, chunk_from_binary, chunk_to_binary, construct_tmb_path,
    filter_mode_from_code, filter_mode_to_code, major_version, path_join_str, storage_from_binary,
    storage_to_binary, tile_from_binary, tile_to_binary, tilemap_from_binary, tilemap_to_binary,
    usize_to_decimal, BinaryAtlasIndex,
};
use dystopia_core::map::storage::Chunk;
use dystopia_core::map::tilemap::{
    ColorBits, FilterMode, FlattenedTileIndex, Tile, TileAtlasIndex, TileFlip, TileIndex, TileRenderSize,
    TileStaticAtlas, TilemapAnimations, TilemapStorage, TilemapTexture, TilemapTextureDescriptor,
    TilemapTilesets, TilemapTint, ONE_BITS,
};
use dystopia_core::math::{IVec3, UVec2};

fn tile_at(x: i32, y: i32, z: i32, cs: u32, texture: u32, flip: u32) -> Tile {
    Tile {
        index: TileIndex::new(IVec3::new(x, y, z), cs),
        atlas_index: TileAtlasIndex::Static(TileStaticAtlas::new(
            texture,
            3,
            TileFlip::from_bits(flip).unwrap(),
        )),
        ..Default::default()
    }
}

fn static_of(t: &Tile) -> (u32, u32, u32) {
    match t.atlas_index {
        TileAtlasIndex::Static(s) => (s.texture, s.atlas, s.flip.bits()),
        TileAtlasIndex::Animated { .. } => panic!("not static"),
    }
}

#[test]
fn atlas_binary_roundtrip() {
    let a = TileAtlasIndex::Static(TileStaticAtlas::new(4, 11, TileFlip::vertical()));
    let b = atlas_to_binary(&a);
    assert_eq!(b, BinaryAtlasIndex::Static { texture: 4, atlas: 11, flip: 1 });
    match atlas_from_binary(&b) {
        TileAtlasIndex::Static(s) => {
            assert_eq!(s.texture, 4);
            assert_eq!(s.atlas, 11);
            assert_eq!(s.flip.bits(), 1);
        }
        TileAtlasIndex::Animated { .. } => panic!("not static"),
    }
}

#[test]
fn animated_atlas_binary_roundtrip() {
    let mut anims = TilemapAnimations::default();
    let anim = anims.register(vec![TileStaticAtlas::new(1, 1, TileFlip::none())], 10);
    let a = TileAtlasIndex::Animated { anim, offset_milisec: 250 };
    let b = atlas_to_binary(&a);
    assert_eq!(b, BinaryAtlasIndex::Animated { start: 2, len: 1, offset_milisec: 250 });
    match atlas_from_binary(&b) {
        TileAtlasIndex::Animated { anim, offset_milisec } => {
            assert_eq!(anim.start(), 2);
            assert_eq!(anim.len(), 1);
            assert_eq!(offset_milisec, 250);
        }
        TileAtlasIndex::Static(_) => panic!("not animated"),
    }
}

#[test]
fn tile_binary_roundtrip() {
    let mut t = tile_at(-3, 5, 9, 4, 2, 3);
    t.visible = false;
    t.tint = ColorBits { red: 1, green: 2, blue: 3, alpha: ONE_BITS };
    let b = tile_to_binary(&t);
    assert_eq!(b.indices.0, (-3, 5, 9));
    assert_eq!(b.indices.1 .0, (0, 1, 2));
    assert_eq!(b.tint, (1, 2, 3, ONE_BITS));
    assert!(!b.visible);
    let back = tile_from_binary(&b);
    assert_eq!(back.index.direct(), t.index.direct());
    assert_eq!(back.index.flattend(), t.index.flattend());
    assert_eq!(back.tint, t.tint);
    assert_eq!(back.visible, t.visible);
    assert_eq!(static_of(&back), (2, 3, 3));
}

#[test]
fn chunk_binary_roundtrip() {
    let mut slots = vec![None; 8];
    slots[5] = Some(tile_at(1, 0, 1, 2, 7, 2));
    let c = Chunk::from_vec(slots);
    let b = chunk_to_binary(&c);
    assert_eq!(b.len(), 8);
    assert!(b[0].is_none());
    assert!(b[5].is_some());
    let back = chunk_from_binary(&b);
    assert_eq!(back.len(), 8);
    assert_eq!(static_of(back.0[5].as_ref().unwrap()), (7, 3, 2));
    assert!(back.0[4].is_none());
}

#[test]
fn storage_binary_roundtrip() {
    let mut s = TilemapStorage::new(4);
    s.set(tile_at(1, 0, 0, 4, 1, 0));
    s.set(tile_at(-6, 2, 0, 4, 2, 1));
    s.set(tile_at(9, 9, 9, 4, 3, 2));
    let entries = storage_to_binary(&s);
    assert_eq!(entries.len(), 3);
    let loaded = storage_from_binary(4, &entries);
    assert_eq!(loaded.chunk_size(), 4);
    assert!(!loaded.changed_tiles().contains(&FlattenedTileIndex::from_direct(IVec3::new(1, 0, 0), 4)));
    assert!(!loaded.changed_chunks().contains(&IVec3::new(0, 0, 0)));
    assert_eq!(static_of(loaded.get(IVec3::new(1, 0, 0)).unwrap()), (1, 3, 0));
    assert_eq!(static_of(loaded.get(IVec3::new(-6, 2, 0)).unwrap()), (2, 3, 1));
    assert_eq!(static_of(loaded.get(IVec3::new(9, 9, 9)).unwrap()), (3, 3, 2));
    assert!(loaded.get(IVec3::new(2, 0, 0)).is_none());
}

#[test]
fn later_entry_replaces_earlier() {
    let mut a = TilemapStorage::new(2);
    a.set(tile_at(0, 0, 0, 2, 1, 0));
    let mut b = TilemapStorage::new(2);
    b.set(tile_at(1, 0, 0, 2, 2, 0));
    let mut entries = storage_to_binary(&a);
    entries.extend(storage_to_binary(&b));
    let loaded = storage_from_binary(2, &entries);
    assert!(loaded.get(IVec3::new(0, 0, 0)).is_none());
    assert_eq!(static_of(loaded.get(IVec3::new(1, 0, 0)).unwrap()), (2, 3, 0));
}

#[test]
fn filter_mode_codes() {
    assert_eq!(filter_mode_to_code(FilterMode::Nearest), 0);
    assert_eq!(filter_mode_to_code(FilterMode::Linear), 1);
    assert_eq!(filter_mode_from_code(0), FilterMode::Nearest);
    assert_eq!(filter_mode_from_code(1), FilterMode::Linear);
}

#[test]
fn tilemap_binary_roundtrip() {
    let mut storage = TilemapStorage::new(8);
    storage.set(tile_at(3, 4, 0, 8, 1, 0));
    let tilesets = TilemapTilesets::new(
        vec![TilemapTexture {
            handle: "tiles.png".to_string(),
            desc: TilemapTextureDescriptor { size: UVec2::new(64, 32), tile_size: UVec2::new(16, 16) },
        }],
        FilterMode::Nearest,
    );
    let mut animations = TilemapAnimations::default();
    animations.register(vec![TileStaticAtlas::new(0, 1, TileFlip::none())], 5);
    let tint = TilemapTint(ColorBits { red: ONE_BITS, green: 0, blue: 0, alpha: ONE_BITS });
    let b = tilemap_to_binary(
        1,
        42,
        &TileRenderSize { x: 7, y: 8 },
        &storage,
        &tint,
        &tilesets,
        &animations,
    );
    assert_eq!(b.version, 1);
    assert_eq!(b.target_body, 42);
    assert_eq!(b.tile_render_size, (7, 8));
    assert_eq!(b.chunk_size, 8);
    assert_eq!(b.tint, (ONE_BITS, 0, 0, ONE_BITS));
    assert_eq!(b.tilesets.size, (64, 32));
    assert_eq!(b.tilesets.filter_mode, 0);
    assert_eq!(b.tilesets.textures[0].0, "tiles.png");
    assert_eq!(b.animations, vec![0, 5, 0, 1]);
    let bundle = tilemap_from_binary(b);
    assert_eq!(bundle.tile_render_size, TileRenderSize { x: 7, y: 8 });
    assert_eq!(bundle.storgae.chunk_size(), 8);
    assert_eq!(static_of(bundle.storgae.get(IVec3::new(3, 4, 0)).unwrap()), (1, 3, 0));
    assert_eq!(bundle.tint.0, tint.0);
    assert_eq!(bundle.tilesets.size(), UVec2::new(64, 32));
    assert_eq!(bundle.tilesets.textures()[0].handle, "tiles.png");
    assert_eq!(bundle.animations.bytes(), &vec![0, 5, 0, 1]);
    assert_eq!(bundle.visibility, dystopia_core::map::render::extract::VisibilityKind::Inherited);
}

#[test]
fn major_version_cases() {
    assert_eq!(major_version("0.1.0"), Some(0));
    assert_eq!(major_version("12.3.4"), Some(12));
    assert_eq!(major_version("7"), Some(7));
    assert_eq!(major_version("+7.0"), Some(7));
    assert_eq!(major_version(""), None);
    assert_eq!(major_version(".1"), None);
    assert_eq!(major_version("a.b"), None);
    assert_eq!(major_version("-1.0"), None);
    assert_eq!(major_version("4294967295.0"), Some(u32::MAX));
    assert_eq!(major_version("4294967296.0"), None);
}

#[test]
fn decimal_strings() {
    assert_eq!(usize_to_decimal(0), "0");
    assert_eq!(usize_to_decimal(7), "7");
    assert_eq!(usize_to_decimal(1234), "1234");
}

#[test]
fn path_joining() {
    assert_eq!(path_join_str("a".to_string(), "b"), "a/b");
    assert_eq!(path_join_str("a/".to_string(), "b"), "a/b");
    assert_eq!(path_join_str("a".to_string(), "/b"), "/b");
    assert_eq!(path_join_str(String::new(), "b"), "b");
}

#[test]
fn tmb_paths() {
    assert_eq!(construct_tmb_path("save1", 3), "data/saves/save1/maps/3.tmb");
    assert_eq!(construct_tmb_path("x/", 10), "data/saves/x/maps/10.tmb");
    assert_eq!(construct_tmb_path("/abs", 0), "/abs/maps/0.tmb");
}
