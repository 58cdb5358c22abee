use unique_storage::map::{
    coords_of, dig_horizontal_tunnel, dig_room, dig_vertical_tunnel, index_of, Room, Tile, TileMap,
};

#[test]
fn index_of_uses_the_fixed_stride() {
    assert_eq!(index_of(0, 0), 0);
    assert_eq!(index_of(5, 3), 245);
    assert_eq!(index_of(79, 0), 79);
    assert_eq!(index_of(0, 1), 80);
}

#[test]
fn coords_of_inverts_index_of() {
    assert_eq!(coords_of(0), (0, 0));
    assert_eq!(coords_of(245), (5, 3));
    assert_eq!(coords_of(79), (79, 0));
    assert_eq!(coords_of(80), (0, 1));
    let idx = index_of(17, 42);
    assert_eq!(coords_of(idx), (17, 42));
}

#[test]
fn room_center_is_the_midpoint() {
    let r = Room::new(1, 1, 6, 6);
    let c = r.center();
    assert_eq!(c, [3, 3]);
    let r2 = Room::new(10, 20, 5, 7);
    assert_eq!(r2.center(), [12, 23]);
}

#[test]
fn rooms_intersect_with_one_cell_margin() {
    let a = Room::new(1, 1, 3, 3);
    let far = Room::new(10, 10, 3, 3);
    assert!(!a.intersect(&far));
    assert!(!far.intersect(&a));
    let overlapping = Room::new(2, 2, 3, 3);
    assert!(a.intersect(&overlapping));
    let touching = Room::new(4, 1, 3, 3);
    assert!(a.intersect(&touching));
    let with_gap = Room::new(5, 1, 3, 3);
    assert!(!a.intersect(&with_gap));
    assert!(a.intersect(&a));
}

#[test]
fn dig_room_carves_exactly_the_rectangle() {
    let mut tiles = vec![Tile::Wall; 4000];
    let room = Room::new(2, 2, 3, 3);
    dig_room(&mut tiles, &room);
    for y in 0..50i32 {
        for x in 0..80i32 {
            let inside = (2..=4).contains(&x) && (2..=4).contains(&y);
            let idx = index_of(x, y);
            if inside {
                assert_eq!(tiles[idx], Tile::Floor);
            } else {
                assert_eq!(tiles[idx], Tile::Wall);
            }
        }
    }
}

#[test]
fn horizontal_tunnel_digs_the_row_between_endpoints() {
    let mut tiles = vec![Tile::Wall; 4000];
    dig_horizontal_tunnel(&mut tiles, 5, 2, 1);
    for x in 0..80i32 {
        let idx = index_of(x, 1);
        if (2..=5).contains(&x) {
            assert_eq!(tiles[idx], Tile::Floor);
        } else {
            assert_eq!(tiles[idx], Tile::Wall);
        }
    }
}

#[test]
fn vertical_tunnel_digs_the_column_between_endpoints() {
    let mut tiles = vec![Tile::Wall; 4000];
    dig_vertical_tunnel(&mut tiles, 7, 3, 4);
    for y in 0..50i32 {
        let idx = index_of(4, y);
        if (3..=7).contains(&y) {
            assert_eq!(tiles[idx], Tile::Floor);
        } else {
            assert_eq!(tiles[idx], Tile::Wall);
        }
    }
}

#[test]
fn tunnel_skips_cell_zero() {
    let mut tiles = vec![Tile::Wall; 4000];
    dig_horizontal_tunnel(&mut tiles, 0, 2, 0);
    assert_eq!(tiles[0], Tile::Wall);
    assert_eq!(tiles[1], Tile::Floor);
    assert_eq!(tiles[2], Tile::Floor);
}

#[test]
fn create_dungeon_fills_the_default_screen() {
    let m = TileMap::create_dungeon(80, 50);
    assert_eq!(m.width, 80);
    assert_eq!(m.height, 50);
    assert_eq!(m.tiles.len(), 4000);
    assert_eq!(m.revealed_tiles.len(), 4000);
    assert_eq!(m.visible_tiles.len(), 4000);
    assert!(m.revealed_tiles.iter().all(|r| !r));
    assert!(m.visible_tiles.iter().all(|v| !v));
    assert!(m.rooms.len() <= 30);
    for i in 0..m.rooms.len() {
        for j in 0..m.rooms.len() {
            if i != j {
                assert!(!m.rooms[i].intersect(&m.rooms[j]));
            }
        }
    }
    for room in m.rooms.iter() {
        let c = room.center();
        assert_eq!(m.tiles[index_of(c[0], c[1])], Tile::Floor);
    }
}

#[test]
fn create_dungeon_takes_other_extents() {
    let m = TileMap::create_dungeon(100, 60);
    assert_eq!(m.tiles.len(), 6000);
    assert_eq!(m.width, 100);
    assert_eq!(m.height, 60);
    assert!(m.rooms.len() <= 30);
}
