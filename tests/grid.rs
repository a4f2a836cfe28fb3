use std::collections::HashMap;
use spacefort::map::{air_tile, get_num_chunks, to_mode, Material, Mode, Tile, TileMap, AIR_MAT};
use spacefort::view::{handle_to_snapshot, CameraHandle};

fn materials() -> HashMap<u16, Material> {
    let mut m = HashMap::new();
    m.insert(1, Material { name: "rock".to_string(), id: 1, texture: None, diggable: true, passable: false, color: [0; 4], alt: 10 });
    m.insert(10, Material { name: "air".to_string(), id: 10, texture: None, diggable: false, passable: true, color: [0; 4], alt: 10 });
    m
}

/// A map whose every tile is distinct: material = index.
fn numbered(xl: i32, yl: i32, zl: i32) -> TileMap {
    let n = (xl * yl * zl) as usize;
    let tiles: Vec<Tile> = (0..n).map(|i| Tile::new(i as u16, Mode::Block)).collect();
    TileMap::from_tiles(tiles, materials(), (xl, yl, zl)).unwrap()
}

#[test]
fn mode_codes() {
    assert_eq!(to_mode(0), Some(Mode::Block));
    assert_eq!(to_mode(1), Some(Mode::Empty));
    assert_eq!(to_mode(3), Some(Mode::DownStairs));
    assert_eq!(to_mode(6), Some(Mode::DownRamp));
    assert_eq!(to_mode(7), None);
}

#[test]
fn row_major_layout_and_bounds() {
    let m = numbered(3, 4, 2);
    assert_eq!(m.size(), (3, 4, 2));
    assert_eq!(m.get_tile((2, 1, 1)).unwrap().material, 2 + 3 + 12);
    assert_eq!(m.get_tile((3, 0, 0)), None);
    assert_eq!(m.get_tile((-1, 0, 0)), None);
    assert_eq!(m.get_tile((0, 0, 2)), None);
}

#[test]
fn from_tiles_checks_the_count() {
    assert!(TileMap::from_tiles(vec![air_tile(); 5], materials(), (2, 3, 1)).is_none());
    assert!(TileMap::from_tiles(vec![air_tile(); 6], materials(), (2, 3, 1)).is_some());
    assert!(TileMap::from_tiles(vec![], materials(), (-1, 3, 1)).is_none());
}

#[test]
fn dig_mark_and_passability() {
    let tiles = vec![Tile::new(1, Mode::Block), Tile::new(10, Mode::Empty), Tile::new(7, Mode::Block)];
    let mut m = TileMap::from_tiles(tiles, materials(), (3, 1, 1)).unwrap();
    assert!(!m.passable((0, 0, 0)));
    assert!(m.passable((1, 0, 0)));
    assert!(!m.passable((2, 0, 0)));
    assert!(!m.passable((5, 0, 0)));
    assert!(m.diggable((0, 0, 0)));
    assert!(!m.diggable((1, 0, 0)));
    assert!(!m.diggable((2, 0, 0)));
    m.mark((0, 0, 0));
    assert!(!m.diggable((0, 0, 0)));
    assert!(m.get_tile((0, 0, 0)).unwrap().marked);
    m.unmark((0, 0, 0));
    assert!(m.diggable((0, 0, 0)));
    assert_eq!(m.get_alt((0, 0, 0)), 10);
    assert_eq!(m.get_alt((2, 0, 0)), 0);
    m.dig((0, 0, 0));
    let t = m.get_tile((0, 0, 0)).unwrap();
    assert_eq!(t.material, 10);
    assert_eq!(t.mode, Mode::Block);
    assert!(m.passable((0, 0, 0)));
    m.dig((9, 9, 9));
    m.update_tile(Tile { material: 1, mode: Mode::Empty, marked: true }, (1, 0, 0));
    assert_eq!(m.get_tile((1, 0, 0)), Some(Tile { material: 1, mode: Mode::Empty, marked: false }));
}

#[test]
fn resize_fills_with_air() {
    let mut m = numbered(2, 2, 1);
    m.resize((3, 2, 2));
    assert_eq!(m.size(), (3, 2, 2));
    assert_eq!(m.tiles().len(), 12);
    assert!(m.tiles().iter().all(|t| *t == air_tile()));
    assert_eq!(air_tile().material, AIR_MAT);
}

#[test]
fn chunk_counts_round_up() {
    assert_eq!(get_num_chunks(16, 8), 2);
    assert_eq!(get_num_chunks(17, 8), 3);
    assert_eq!(get_num_chunks(0, 8), 0);
    assert_eq!(get_num_chunks(5, 1), 5);
}

#[test]
fn chunks_cover_an_uneven_map_and_rebuild_it() {
    let m = numbered(10, 9, 2);
    let chunks = m.to_chunks();
    assert_eq!(chunks.len(), 2 * 2 * 2);
    assert_eq!(chunks[0].pos, (0, 0, 0));
    assert_eq!((chunks[0].xlen, chunks[0].ylen, chunks[0].zlen), (8, 8, 1));
    assert_eq!(chunks[1].pos, (0, 0, 1));
    assert_eq!(chunks[2].pos, (0, 8, 0));
    assert_eq!((chunks[2].xlen, chunks[2].ylen), (8, 1));
    assert_eq!(chunks[7].pos, (8, 8, 1));
    assert_eq!((chunks[7].xlen, chunks[7].ylen, chunks[7].zlen), (2, 1, 1));
    let total: usize = chunks.iter().map(|c| c.tiles.len()).sum();
    assert_eq!(total, 10 * 9 * 2);

    let mut copy = TileMap::new(materials());
    copy.resize(m.size());
    for c in &chunks {
        copy.apply_chunk(c);
    }
    assert_eq!(copy.tiles(), m.tiles());
}

#[test]
fn chunk_order_within_a_chunk() {
    let m = numbered(3, 2, 2);
    let c = m.get_chunk((1, 0, 0), (2, 2, 2));
    let mats: Vec<u16> = c.tiles.iter().map(|t| t.material).collect();
    // x outer, then y, then z
    assert_eq!(mats, vec![1, 7, 4, 10, 2, 8, 5, 11]);
}

#[test]
fn misfit_chunk_is_ignored() {
    let mut m = numbered(3, 3, 1);
    let before = m.tiles();
    let mut c = m.get_chunk((0, 0, 0), (2, 2, 1));
    c.pos = (2, 2, 0);
    m.apply_chunk(&c);
    assert_eq!(m.tiles(), before);
    let mut short = m.get_chunk((0, 0, 0), (2, 2, 1));
    short.tiles.pop();
    m.apply_chunk(&short);
    assert_eq!(m.tiles(), before);
}

#[test]
fn snapshot_shows_air_off_the_map() {
    let m = numbered(3, 3, 1);
    let h = CameraHandle::new(2, 2, 2, 1, 0);
    assert!(h.in_bounds(&(3, 2, 0)));
    assert!(!h.in_bounds(&(4, 2, 0)));
    assert!(!h.in_bounds(&(2, 1, 1)));
    let s = handle_to_snapshot(&h, &m);
    assert_eq!((s.xlen, s.ylen), (2, 2));
    assert_eq!(s.tiles[0].material, 2 + 3);
    assert_eq!(s.tiles[1], air_tile());
    assert_eq!(s.tiles[2].material, 2 + 6);
    assert_eq!(s.tile_at(0, 1).unwrap().material, 8);
    assert_eq!(s.tile_at(2, 0), None);
}
