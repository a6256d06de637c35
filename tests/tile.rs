use raytracer::tile::{split_surface, Tile, TileConfig};

fn covering(tiles: &[Tile<u8>], px: u32, py: u32) -> usize {
    tiles
        .iter()
        .filter(|t| t.x <= px && px < t.x + t.width && t.y <= py && py < t.y + t.height)
        .count()
}

#[test]
fn tile_config_keeps_size() {
    let config = TileConfig::new(16, 8);
    assert_eq!(config.width, 16);
    assert_eq!(config.height, 8);
}

#[test]
fn new_tile_is_blank() {
    let tile = Tile::new(4, 6, 3, 2, 7u8);
    assert_eq!((tile.x, tile.y, tile.width, tile.height), (4, 6, 3, 2));
    assert_eq!(tile.data, vec![7u8; 6]);
}

#[test]
fn empty_tile_has_empty_buffer() {
    let tile = Tile::new(0, 0, 0, 5, 1u8);
    assert!(tile.data.is_empty());
}

#[test]
fn set_then_get_is_column_major() {
    let mut tile = Tile::new(0, 0, 3, 2, 0u32);
    tile.set(2, 1, 9);
    tile.set(1, 0, 5);
    assert_eq!(tile.get(2, 1), 9);
    assert_eq!(tile.get(1, 0), 5);
    assert_eq!(tile.get(0, 1), 0);
    assert_eq!(tile.data, vec![0, 0, 5, 0, 0, 9]);
}

#[test]
fn surface_point_offsets_by_corner() {
    let tile = Tile::new(10, 20, 4, 4, 0u8);
    assert_eq!(tile.surface_point(0, 0), (10, 20));
    assert_eq!(tile.surface_point(3, 2), (13, 22));
}

#[test]
fn image_row_is_mirrored() {
    let tile = Tile::new(0, 4, 4, 4, 0u8);
    assert_eq!(tile.image_row(0, 8), 3);
    assert_eq!(tile.image_row(3, 8), 0);
    let top = Tile::new(0, 0, 4, 4, 0u8);
    assert_eq!(top.image_row(0, 8), 7);
}

#[test]
fn split_lists_tiles_column_by_column() {
    let tiles = split_surface(6, 4, 3, 2, 0u8);
    let corners: Vec<(u32, u32)> = tiles.iter().map(|t| (t.x, t.y)).collect();
    assert_eq!(corners, vec![(0, 0), (0, 2), (3, 0), (3, 2)]);
    for t in &tiles {
        assert_eq!((t.width, t.height), (3, 2));
        assert_eq!(t.data, vec![0u8; 6]);
    }
}

#[test]
fn split_divisible_covers_every_pixel_once() {
    let (w, h) = (8, 6);
    let tiles = split_surface(w, h, 2, 3, 0u8);
    assert_eq!(tiles.len(), 8);
    for px in 0..w {
        for py in 0..h {
            assert_eq!(covering(&tiles, px, py), 1);
        }
    }
}

#[test]
fn split_drops_remainder_strip() {
    let (w, h) = (5, 7);
    let tiles = split_surface(w, h, 2, 3, 0u8);
    assert_eq!(tiles.len(), 4);
    for px in 0..w {
        for py in 0..h {
            let expected = if px < 4 && py < 6 { 1 } else { 0 };
            assert_eq!(covering(&tiles, px, py), expected);
        }
    }
}

#[test]
fn split_tile_larger_than_surface_gives_nothing() {
    assert!(split_surface(3, 3, 4, 4, 0u8).is_empty());
    assert!(split_surface(0, 0, 1, 1, 0u8).is_empty());
}

#[test]
fn split_whole_surface_as_one_tile() {
    let tiles = split_surface(4, 3, 4, 3, 1u8);
    assert_eq!(tiles.len(), 1);
    assert_eq!((tiles[0].x, tiles[0].y, tiles[0].width, tiles[0].height), (0, 0, 4, 3));
    assert_eq!(tiles[0].data.len(), 12);
}
