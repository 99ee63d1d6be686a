use dungeon_builder::geometry::{Point, Rect};
use dungeon_builder::grid::{map_idx, TileType, NUM_TILES, SCREEN_HEIGHT, SCREEN_WIDTH};
use dungeon_builder::map_builder::MapBuilder;
use dungeon_builder::random::{Lcg, Scripted};

fn floor_cells(builder: &MapBuilder) -> Vec<(i32, i32)> {
    let mut cells = Vec::new();
    for y in 0..SCREEN_HEIGHT {
        for x in 0..SCREEN_WIDTH {
            if builder.map.tiles[map_idx(x, y)] == TileType::Floor {
                cells.push((x, y));
            }
        }
    }
    cells
}

fn row(xs: std::ops::Range<i32>, y: i32) -> Vec<(i32, i32)> {
    xs.map(|x| (x, y)).collect()
}

fn column(ys: std::ops::Range<i32>, x: i32) -> Vec<(i32, i32)> {
    ys.map(|y| (x, y)).collect()
}

#[test]
fn horizontal_tunnel_stops_before_the_larger_end() {
    let mut builder = MapBuilder::new();
    builder.carve_horizontal_tunnel(5, 15, 5);
    assert_eq!(floor_cells(&builder), row(5..15, 5));
}

#[test]
fn horizontal_tunnel_takes_its_ends_in_either_order() {
    let mut builder = MapBuilder::new();
    builder.carve_horizontal_tunnel(15, 5, 5);
    assert_eq!(floor_cells(&builder), row(5..15, 5));
}

#[test]
fn horizontal_tunnel_between_equal_ends_is_empty() {
    let mut builder = MapBuilder::new();
    builder.carve_horizontal_tunnel(7, 7, 5);
    assert!(floor_cells(&builder).is_empty());
}

#[test]
fn horizontal_tunnel_passes_over_cells_outside_the_grid() {
    let mut builder = MapBuilder::new();
    builder.carve_horizontal_tunnel(-5, 100, 3);
    assert_eq!(floor_cells(&builder), row(0..80, 3));
    assert_eq!(builder.map.tiles.len(), NUM_TILES);
    builder.carve_horizontal_tunnel(0, 80, -1);
    builder.carve_horizontal_tunnel(0, 80, 50);
    builder.carve_horizontal_tunnel(80, 200, 10);
    builder.carve_horizontal_tunnel(-200, 0, 10);
    assert_eq!(floor_cells(&builder), row(0..80, 3));
    assert_eq!(builder.map.tiles.len(), NUM_TILES);
}

#[test]
fn horizontal_tunnel_may_run_in_the_top_row() {
    let mut builder = MapBuilder::new();
    builder.carve_horizontal_tunnel(0, 3, 0);
    assert_eq!(floor_cells(&builder), row(0..3, 0));
}

#[test]
fn vertical_tunnel_stops_before_the_larger_end() {
    let mut builder = MapBuilder::new();
    builder.carve_vertical_tunnel(4, 9, 30);
    assert_eq!(floor_cells(&builder), column(4..9, 30));
    let mut reversed = MapBuilder::new();
    reversed.carve_vertical_tunnel(9, 4, 30);
    assert_eq!(floor_cells(&reversed), column(4..9, 30));
}

#[test]
fn vertical_tunnel_passes_over_cells_outside_the_grid() {
    let mut builder = MapBuilder::new();
    builder.carve_vertical_tunnel(-3, 60, 7);
    assert_eq!(floor_cells(&builder), column(0..50, 7));
    builder.carve_vertical_tunnel(0, 50, 80);
    builder.carve_vertical_tunnel(0, 50, -1);
    builder.carve_vertical_tunnel(50, 90, 7);
    assert_eq!(floor_cells(&builder), column(0..50, 7));
    assert_eq!(builder.map.tiles.len(), NUM_TILES);
}

#[test]
fn tunnels_keep_rooms_and_starting_point() {
    let mut builder = MapBuilder::new();
    builder.rooms.push(Rect::with_size(1, 1, 2, 2));
    builder.starting_point = Point::new(3, 3);
    builder.carve_horizontal_tunnel(0, 9, 9);
    builder.carve_vertical_tunnel(0, 9, 9);
    assert_eq!(builder.rooms, vec![Rect::with_size(1, 1, 2, 2)]);
    assert_eq!(builder.starting_point, Point::new(3, 3));
}

#[test]
fn tunnels_never_turn_floor_into_wall() {
    let mut builder = MapBuilder::new();
    builder.fill(TileType::Floor);
    builder.carve_horizontal_tunnel(-5, 100, 3);
    builder.carve_vertical_tunnel(-5, 100, 3);
    assert_eq!(floor_cells(&builder).len(), NUM_TILES);
}

#[test]
fn carved_corridor_joins_two_rooms_in_a_row() {
    let mut builder = MapBuilder::new();
    assert!(builder.place_room(Rect::with_size(3, 3, 4, 4)));
    assert!(builder.place_room(Rect::with_size(13, 3, 4, 4)));
    assert_eq!(builder.rooms[0].center(), Point::new(5, 5));
    assert_eq!(builder.rooms[1].center(), Point::new(15, 5));
    let mut rng = Scripted::new(vec![1]);
    builder.build_corridors(&mut rng);
    for x in 5..=15 {
        assert_eq!(builder.map.tiles[map_idx(x, 5)], TileType::Floor);
    }
    let mut expected = Vec::new();
    for y in 3..7 {
        for x in 3..17 {
            if y == 5 || x < 7 || x >= 13 {
                expected.push((x, y));
            }
        }
    }
    assert_eq!(floor_cells(&builder), expected);
    assert_eq!(rng.next, 1);
}

#[test]
fn corridor_is_left_out_when_the_draw_is_not_one() {
    let mut builder = MapBuilder::new();
    builder.place_room(Rect::with_size(3, 3, 4, 4));
    builder.place_room(Rect::with_size(13, 3, 4, 4));
    let before = floor_cells(&builder);
    let mut rng = Scripted::new(vec![0]);
    builder.build_corridors(&mut rng);
    assert_eq!(floor_cells(&builder), before);
    for x in 7..13 {
        assert_eq!(builder.map.tiles[map_idx(x, 5)], TileType::Wall);
    }
    assert_eq!(rng.next, 1);
}

#[test]
fn corridors_go_by_position_not_by_the_order_of_the_list() {
    let mut builder = MapBuilder::new();
    let right = Rect::with_size(13, 10, 4, 4);
    let left = Rect::with_size(3, 3, 4, 4);
    builder.rooms.push(right);
    builder.rooms.push(left);
    builder.build_corridors(&mut Scripted::new(vec![1]));
    // from the center of the left room, in its row, to the column of the right one's
    assert_eq!(floor_cells(&builder), row(5..15, 5));
    assert_eq!(builder.rooms, vec![right, left]);
}

#[test]
fn corridors_link_each_room_to_the_one_before_it() {
    let mut builder = MapBuilder::new();
    builder.rooms.push(Rect::with_size(40, 20, 2, 2));
    builder.rooms.push(Rect::with_size(10, 10, 2, 2));
    builder.rooms.push(Rect::with_size(60, 30, 2, 2));
    builder.rooms.push(Rect::with_size(20, 40, 2, 2));
    let mut rng = Scripted::new(vec![1, 0, 1]);
    builder.build_corridors(&mut rng);
    // centers from left to right: (11, 11), (21, 41), (41, 21), (61, 31)
    let mut expected = row(11..21, 11);
    expected.extend(row(41..61, 21));
    assert_eq!(floor_cells(&builder), expected);
    assert_eq!(rng.next, 3);
}

#[test]
fn corridors_draw_once_for_each_room_but_the_first() {
    let mut none = MapBuilder::new();
    let mut rng = Scripted::new(vec![1, 1, 1, 1, 1]);
    none.build_corridors(&mut rng);
    assert_eq!(rng.next, 0);
    let mut one = MapBuilder::new();
    one.rooms.push(Rect::with_size(3, 3, 4, 4));
    one.build_corridors(&mut rng);
    assert_eq!(rng.next, 0);
    assert!(floor_cells(&one).is_empty());
    let mut four = MapBuilder::new();
    for i in 0..4 {
        four.rooms.push(Rect::with_size(3 + 10 * i, 3, 4, 4));
    }
    four.build_corridors(&mut rng);
    assert_eq!(rng.next, 3);
    assert_eq!(floor_cells(&four), row(5..35, 5));
}

#[test]
fn corridors_between_rooms_in_one_column_are_empty() {
    let mut builder = MapBuilder::new();
    builder.rooms.push(Rect::with_size(10, 5, 4, 4));
    builder.rooms.push(Rect::with_size(10, 30, 4, 4));
    builder.build_corridors(&mut Scripted::new(vec![1]));
    assert!(floor_cells(&builder).is_empty());
}

#[test]
fn corridors_keep_floor_rooms_and_starting_point() {
    let mut builder = MapBuilder::new();
    builder.build_random_rooms(&mut Lcg::new(3));
    builder.starting_point = Point::new(2, 2);
    let rooms = builder.rooms.clone();
    let before = floor_cells(&builder);
    builder.build_corridors(&mut Lcg::new(4));
    let after = floor_cells(&builder);
    assert!(before.iter().all(|cell| after.contains(cell)));
    assert_eq!(builder.rooms, rooms);
    assert_eq!(builder.starting_point, Point::new(2, 2));
    assert_eq!(builder.map.tiles.len(), NUM_TILES);
}
