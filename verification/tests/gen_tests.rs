use dystopia_core::map::gen::{
    generate_map, generated_tilemap, GENERATED_TILE_HEIGHT_BITS, GENERATED_TILE_WIDTH_BITS,
};
use dystopia_core::map::tilemap::{FilterMode, TileAtlasIndex, TileRenderSize, TileStaticAtlas, ONE_BITS};
use dystopia_core::map::render::extract::VisibilityKind;
use dystopia_core::math::{IVec3, UVec2};

fn atlas_at(b: &dystopia_core::map::serde::TilemapBundle, x: i32, y: i32) -> (u32, u32, u32) {
    let t = b.storgae.get(IVec3::new(x, y, 1 - x - y)).unwrap();
    match t.atlas_index {
        TileAtlasIndex::Static(s) => (s.texture, s.atlas, s.flip.bits()),
        TileAtlasIndex::Animated { .. } => panic!("not static"),
    }
}

#[test]
fn generated_tilemap_from_choices() {
    let choices: Vec<(u32, u32)> = (0..100u32).map(|i| (i, i / 2 + 7)).collect();
    let b = generated_tilemap(&choices);
    assert_eq!(b.tile_render_size, TileRenderSize { x: GENERATED_TILE_WIDTH_BITS, y: GENERATED_TILE_HEIGHT_BITS });
    assert_eq!(f32::from_bits(b.tile_render_size.x), 32.0);
    assert_eq!(f32::from_bits(b.tile_render_size.y), 16.0);
    assert_eq!(b.storgae.chunk_size(), 8);
    // Point k of the patch is (k / 10, k % 10).
    assert_eq!(atlas_at(&b, 0, 0), (0, 1, 0));
    assert_eq!(atlas_at(&b, 0, 1), (1, 1, 0));
    assert_eq!(atlas_at(&b, 2, 3), (1, 0, 0));
    assert_eq!(atlas_at(&b, 9, 9), (1, 0, 0));
    assert!(b.storgae.get(IVec3::new(10, 0, -9)).is_none());
    assert_eq!(b.tint.0.red, ONE_BITS);
    assert_eq!(b.tilesets.filter_mode(), FilterMode::Nearest);
    assert_eq!(b.tilesets.size(), UVec2::new(32, 32));
    assert_eq!(b.tilesets.textures()[0].handle, "images/test_tileset_a.png");
    assert_eq!(b.tilesets.textures()[1].handle, "images/test_tileset_b.png");
    assert_eq!(b.animations.bytes(), &vec![0]);
    assert_eq!(b.visibility, VisibilityKind::Hidden);
}

#[test]
fn generated_map_has_a_hundred_tiles_of_the_first_atlases() {
    let b = generate_map();
    for x in 0..10 {
        for y in 0..10 {
            let (texture, atlas, flip) = atlas_at(&b, x, y);
            assert!(texture < 2 && atlas < 2 && flip == 0);
        }
    }
    assert_eq!(b.visibility, VisibilityKind::Hidden);
}

#[test]
fn static_atlas_from_pair() {
    let a = TileStaticAtlas::from((3, 9));
    assert_eq!((a.texture, a.atlas, a.flip.bits()), (3, 9, 0));
}
