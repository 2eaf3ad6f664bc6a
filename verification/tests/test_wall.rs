use std::collections::HashMap;

use mahjong::tile::{TileName, TILE_NAME_NUMBER, TILE_PER_KIND, TILE_WALL_CAPACITY};
use mahjong::wall::Wall;

#[test]
fn wall_case01() {
    let wall = Wall::new();
    let expected: Vec<usize> = (1..=TILE_NAME_NUMBER).flat_map(|i| vec![i; 4]).collect();
    assert_eq!(wall.tiles().len(), expected.len());
    for (tile, n) in wall.tiles().iter().zip(expected) {
        assert_eq!(tile.index() as u8, n as u8);
    }
}

#[test]
fn wall_contains_four_each() {
    let wall = Wall::new();
    let mut counter: HashMap<TileName, usize> = HashMap::new();

    for tile in wall.tiles() {
        *counter.entry(*tile).or_default() += 1;
    }

    assert_eq!(wall.remaining(), TILE_WALL_CAPACITY);
    assert_eq!(counter.len(), TILE_NAME_NUMBER);
    for value in counter.values() {
        assert_eq!(*value, TILE_PER_KIND);
    }
}
