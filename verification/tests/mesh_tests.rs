use dystopia_core::map::render::mesh::{
    chunk_mesh_buffers, tile_mesh_data, TileMeshData, TilemapRenderChunk, TilemapRenderChunks,
};
use dystopia_core::map::tilemap::{
    ColorBits, FlattenedTileIndex, Tile, TileAtlasIndex, TileFlip, TileIndex, TileStaticAtlas,
    TilemapAnimations,
};
use dystopia_core::math::IVec3;

fn data(texture: u32, x: i32) -> TileMeshData {
    TileMeshData {
        tint: ColorBits { red: texture, green: 0, blue: 0, alpha: 0 },
        atlas_index: (texture, 0, 0, 0),
        tile_index: IVec3::new(x, 0, 0),
    }
}

fn tile_at(x: i32, y: i32, z: i32, cs: u32, texture: u32) -> Tile {
    Tile {
        index: TileIndex::new(IVec3::new(x, y, z), cs),
        atlas_index: TileAtlasIndex::Static(TileStaticAtlas::new(texture, 5, TileFlip::horizontal())),
        ..Default::default()
    }
}

#[test]
fn mesh_of_empty_chunk_is_empty() {
    let b = chunk_mesh_buffers(&vec![None, None, None]);
    assert_eq!(b.vertex_count, 0);
    assert!(b.atlas_indices.is_empty());
    assert!(b.vertex_indices.is_empty());
}

#[test]
fn mesh_has_six_vertices_per_present_tile() {
    let b = chunk_mesh_buffers(&vec![None, Some(data(3, 1)), None, Some(data(8, 2))]);
    assert_eq!(b.vertex_count, 12);
    assert_eq!(b.vertex_indices, vec![0, 1, 3, 1, 2, 3, 6, 7, 9, 7, 8, 9]);
    assert_eq!(b.atlas_indices.len(), 12);
    for v in 0..6 {
        assert_eq!(b.atlas_indices[v], (3, 0, 0, 0));
        assert_eq!(b.tile_indices[v], IVec3::new(1, 0, 0));
        assert_eq!(b.colors[v].red, 3);
    }
    for v in 6..12 {
        assert_eq!(b.atlas_indices[v], (8, 0, 0, 0));
        assert_eq!(b.tile_indices[v], IVec3::new(2, 0, 0));
        assert_eq!(b.colors[v].red, 8);
    }
}

#[test]
fn mesh_data_of_tiles() {
    let t = tile_at(4, -2, 1, 8, 6);
    let d = tile_mesh_data(&t).unwrap();
    assert_eq!(d.atlas_index, (6, 5 | (2 << 30), 0, 0));
    assert_eq!(d.tile_index, IVec3::new(4, -2, 1));
    assert_eq!(d.tint, t.tint);

    let mut hidden = t;
    hidden.visible = false;
    assert!(tile_mesh_data(&hidden).is_none());

    let mut anims = TilemapAnimations::default();
    let anim = anims.register(
        vec![TileStaticAtlas::new(0, 0, TileFlip::none()), TileStaticAtlas::new(0, 1, TileFlip::none())],
        4,
    );
    let mut animated = t;
    animated.atlas_index = TileAtlasIndex::Animated { anim, offset_milisec: 30 };
    assert_eq!(tile_mesh_data(&animated).unwrap().atlas_index, (2, 2, 1, 30));
}

#[test]
fn render_chunk_slots_and_dirtiness() {
    let mut c = TilemapRenderChunk::new(3);
    assert_eq!(c.chunk_size(), 3);
    assert_eq!(c.tiles().len(), 9);
    assert!(c.is_dirty());
    c.mark_clean();
    assert!(!c.is_dirty());
    c.set(4, Some(data(1, 0)));
    assert!(c.is_dirty());
    assert!(c.tiles()[4].is_some());
    assert_eq!(c.mesh_buffers().vertex_count, 6);
}

#[test]
fn render_chunks_follow_tile_updates() {
    let mut r = TilemapRenderChunks::new(4);
    assert_eq!(r.chunk_size(), 4);
    assert!(r.keys().is_empty());
    let t = tile_at(1, 2, 0, 4, 3);
    let f = t.index.flattend();
    r.update_tile(&f, &Some(t));
    assert_eq!(r.keys(), vec![(0, 0, 0)]);
    let c = r.get(&(0, 0, 0)).unwrap();
    assert_eq!(c.tiles().len(), 16);
    assert!(c.is_dirty());
    assert_eq!(c.tiles()[f.in_chunk_index].unwrap().atlas_index.0, 3);

    r.update_tile(&f, &None);
    assert!(r.get(&(0, 0, 0)).unwrap().tiles()[f.in_chunk_index].is_none());

    let elsewhere = FlattenedTileIndex { chunk_index: IVec3::new(5, 5, 0), in_chunk_index: 0 };
    r.remove_tile(&elsewhere);
    assert!(r.get(&(5, 5, 0)).is_none());

    r.remove_chunk(&(0, 0, 0));
    assert!(r.get(&(0, 0, 0)).is_none());
}

use dystopia_core::map::render::extract::extract_changes;
use dystopia_core::map::storage::Chunk;
use dystopia_core::map::tilemap::TilemapStorage;

#[test]
fn extracted_changes_follow_the_storage() {
    let mut s = TilemapStorage::new(2);
    s.set(tile_at(1, 0, 0, 2, 4));
    s.set_chunk(IVec3::new(3, 3, 3), Chunk::from_vec(vec![None; 8]));
    s.remove_chunk(IVec3::new(7, 7, 7));
    let c = extract_changes(&s);
    assert_eq!(c.chunk_size, 2);
    assert_eq!(c.changed_tiles.len(), 1);
    assert_eq!(c.changed_tiles[0].0, FlattenedTileIndex::from_direct(IVec3::new(1, 0, 0), 2));
    assert!(c.changed_tiles[0].1.is_some());
    assert_eq!(c.changed_chunks.len(), 2);
    for (k, chunk) in &c.changed_chunks {
        if *k == IVec3::new(3, 3, 3) {
            assert_eq!(chunk.as_ref().unwrap().len(), 8);
        } else {
            assert_eq!(*k, IVec3::new(7, 7, 7));
            assert!(chunk.is_none());
        }
    }
}

#[test]
fn changes_are_brought_into_render_chunks() {
    let mut s = TilemapStorage::new(2);
    let t = tile_at(1, 0, 0, 2, 4);
    s.set(t);
    let mut r = TilemapRenderChunks::new(2);
    r.apply_changes(&extract_changes(&s));
    let f = t.index.flattend();
    assert_eq!(r.keys(), vec![(0, 0, 0)]);
    assert_eq!(r.get(&(0, 0, 0)).unwrap().tiles()[f.in_chunk_index].unwrap().atlas_index.0, 4);

    s.clear_changes();
    s.remove_chunk(IVec3::new(0, 0, 0));
    r.apply_changes(&extract_changes(&s));
    assert!(r.get(&(0, 0, 0)).is_none());
}

use dystopia_core::map::render::extract::{is_rendered, VisibilityKind};

#[test]
fn which_tilemaps_are_rendered() {
    assert!(is_rendered(VisibilityKind::Visible, false));
    assert!(!is_rendered(VisibilityKind::Hidden, true));
    assert!(is_rendered(VisibilityKind::Inherited, true));
    assert!(!is_rendered(VisibilityKind::Inherited, false));
}

#[test]
fn only_dirty_chunks_are_rebuilt_and_then_clean() {
    let mut r = TilemapRenderChunks::new(2);
    let a = tile_at(1, 0, 0, 2, 4);
    let b = tile_at(4, 0, 0, 2, 5);
    r.update_tile(&a.index.flattend(), &Some(a));
    r.update_tile(&b.index.flattend(), &Some(b));
    let key_a = a.index.flattend().chunk_index.to_key();
    let key_b = b.index.flattend().chunk_index.to_key();
    assert_ne!(key_a, key_b);

    let mut rebuilt = r.rebuild_dirty();
    rebuilt.sort_by_key(|e| e.0);
    assert_eq!(rebuilt.len(), 2);
    for (key, buffers) in &rebuilt {
        assert_eq!(buffers.vertex_count, 6);
        assert_eq!(buffers.vertex_indices, vec![0, 1, 3, 1, 2, 3]);
        let expected = if *key == key_a { 4 } else { 5 };
        assert_eq!(buffers.atlas_indices[0].0, expected);
        assert!(!r.get(key).unwrap().is_dirty());
    }
    assert!(r.rebuild_dirty().is_empty());

    r.update_tile(&b.index.flattend(), &None);
    let again = r.rebuild_dirty();
    assert_eq!(again.len(), 1);
    assert_eq!(again[0].0, key_b);
    assert_eq!(again[0].1.vertex_count, 0);
    assert!(!r.get(&key_a).unwrap().is_dirty());
    assert_eq!(r.get(&key_a).unwrap().tiles()[a.index.flattend().in_chunk_index].unwrap().atlas_index.0, 4);
}
