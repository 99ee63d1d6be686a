//! The builder of one dungeon level: rooms first, corridors after.

use crate::corridors::{
    after_flips, column_cells, corridor_cells, corridor_cells_upto, flips,
    lemma_corridor_cells_first, lemma_corridor_cells_next, lemma_flips_index, lemma_flips_len,
    link_cells, links, row_cells,
};
use crate::geometry::{Point, Rect};
use crate::grid::{
    dig, filled, lemma_dig_nothing, lemma_dig_union, lemma_point_round_trip, map_idx, playable,
    point_of, tile_at, Grid, TileType, NUM_TILES, SCREEN_HEIGHT, SCREEN_WIDTH,
};
use crate::placement::{
    after_rooms, carved_cells, is_carved, keeps_clear, lemma_carved_cells_none,
    lemma_carved_cells_push, lemma_carved_room_is_floor, lemma_center_of_sampled_room,
    lemma_sampled_rooms_in_range, room_cells, rooms_missing, sampled_room, sampled_rooms,
    NUM_ROOMS, ROOM_SIZE_LIMIT, ROOM_SIZE_MIN, ROOM_X_LIMIT, ROOM_Y_LIMIT,
};
use crate::random::RandomSource;
use crate::sorting::{sort_by_center_x, sorted_by_center_x};
use vstd::prelude::*;

verus! {

/// The rooms of the level that is built from `rng`, in the order of
/// sampling.
pub open spec fn level_rooms<R: RandomSource>(rng: R) -> Seq<Rect> {
    sampled_rooms(rng, NUM_ROOMS as nat)
}

/// The tiles of the level that is built from `rng`: solid wall, with the
/// carved rooms dug out first and the corridors after. The corridors are
/// decided by the draws that follow those of the rooms.
pub open spec fn level_tiles<R: RandomSource>(rng: R) -> Seq<TileType> {
    dig(
        dig(filled(NUM_TILES as nat, TileType::Wall), carved_cells(level_rooms(rng), 0)),
        corridor_cells(
            sorted_by_center_x(level_rooms(rng)),
            flips(after_rooms(rng, NUM_ROOMS as nat), links(NUM_ROOMS as nat)),
        ),
    )
}

/// Where the player starts in the level that is built from `rng`: at the
/// center of the room sampled first.
pub open spec fn level_start<R: RandomSource>(rng: R) -> Point {
    level_rooms(rng)[0].spec_center()
}

/// The source as building a level leaves it.
pub open spec fn after_level<R: RandomSource>(rng: R) -> R {
    after_flips(after_rooms(rng, NUM_ROOMS as nat), links(NUM_ROOMS as nat))
}

/// Whatever the source draws, the player starts on a floor tile.
pub proof fn lemma_level_start_is_floor<R: RandomSource>(rng: R)
    ensures
        tile_at(level_tiles(rng), level_start(rng)) == Some(TileType::Floor),
{
    let rooms = level_rooms(rng);
    let start = level_start(rng);
    lemma_sampled_rooms_in_range(rng, NUM_ROOMS as nat);
    lemma_center_of_sampled_room(rooms[0]);
    assert(rooms.take(0) =~= Seq::<Rect>::empty());
    assert(is_carved(rooms, 0));
    lemma_carved_room_is_floor(filled(NUM_TILES as nat, TileType::Wall), rooms, 0, 0, start);
    lemma_point_round_trip(start);
}

/// The part of `room` that is stamped once every row above `y` is done and
/// row `y` is done up to column `x`.
spec fn stamped(room: Rect, x: int, y: int) -> Set<Point> {
    Set::new(|p: Point| room.contains(p) && playable(p) && (p.y < y || (p.y == y && p.x < x)))
}

/// A level under construction: the grid, every room that was sampled, in
/// the order of sampling, and the point where the player starts.
pub struct MapBuilder {
    pub map: Grid,
    pub rooms: Vec<Rect>,
    pub starting_point: Point,
}

impl MapBuilder {
    /// The grid holds one tile per cell.
    pub open spec fn wf(&self) -> bool {
        self.map.wf()
    }

    /// A builder with a grid of solid wall, no rooms, and the starting
    /// point at the origin.
    pub fn new() -> (builder: MapBuilder)
        ensures
            builder.wf(),
            builder.map@ == filled(NUM_TILES as nat, TileType::Wall),
            builder.rooms@ == Seq::<Rect>::empty(),
            builder.starting_point == Point::at(0, 0),
    {
        MapBuilder { map: Grid::new(), rooms: Vec::new(), starting_point: Point::new(0, 0) }
    }

    /// Sets every cell of the grid to `tile`.
    pub fn fill(&mut self, tile: TileType)
        ensures
            final(self).map@ == filled(old(self).map@.len(), tile),
            final(self).rooms@ == old(self).rooms@,
            final(self).starting_point == old(self).starting_point,
    {
        let mut i: usize = 0;
        while i < self.map.tiles.len()
            invariant
                i <= self.map@.len(),
                self.map@.len() == old(self).map@.len(),
                forall|j: int| 0 <= j < i ==> self.map@[j] == tile,
                self.rooms@ == old(self).rooms@,
                self.starting_point == old(self).starting_point,
            decreases self.map@.len() - i,
        {
            self.map.tiles.set(i, tile);
            i += 1;
        }
        assert(self.map@ =~= filled(old(self).map@.len(), tile));
    }

    /// Turns to floor every cell that `room` covers, except where it
    /// reaches beyond the grid or into the top row.
    pub fn carve_room(&mut self, room: Rect)
        requires
            old(self).wf(),
        ensures
            final(self).wf(),
            final(self).map@ == dig(old(self).map@, room_cells(room)),
            forall|i: int|
                0 <= i < NUM_TILES && final(self).map@[i] != old(self).map@[i]
                    ==> final(self).map@[i] == TileType::Floor && playable(point_of(i))
                    && room.contains(point_of(i)),
            final(self).rooms@ == old(self).rooms@,
            final(self).starting_point == old(self).starting_point,
    {
        let ghost before = self.map@;
        let mut y: i32 = room.y1;
        assert(self.map@ =~= dig(before, stamped(room, room.x1 as int, y as int)));
        while y < room.y2
            invariant
                y == room.y1 || room.y1 <= y <= room.y2,
                self.wf(),
                self.map@ == dig(before, stamped(room, room.x1 as int, y as int)),
                self.rooms@ == old(self).rooms@,
                self.starting_point == old(self).starting_point,
            decreases room.y2 - y,
        {
            let mut x: i32 = room.x1;
            while x < room.x2
                invariant
                    room.y1 <= y < room.y2,
                    x == room.x1 || room.x1 <= x <= room.x2,
                    self.wf(),
                    self.map@ == dig(before, stamped(room, x as int, y as int)),
                    self.rooms@ == old(self).rooms@,
                    self.starting_point == old(self).starting_point,
                decreases room.x2 - x,
            {
                if x >= 0 && x < SCREEN_WIDTH && y > 0 && y < SCREEN_HEIGHT {
                    let idx: usize = map_idx(x, y);
                    self.map.tiles.set(idx, TileType::Floor);
                }
                x += 1;
                assert(self.map@ =~= dig(before, stamped(room, x as int, y as int)));
            }
            y += 1;
            assert(self.map@ =~= dig(before, stamped(room, room.x1 as int, y as int)));
        }
        assert(self.map@ =~= dig(before, room_cells(room)));
    }

    /// Takes `room` into the list of rooms, and stamps it into the grid if
    /// it intersects none of the rooms that were in the list before it.
    /// Returns whether it was stamped.
    pub fn place_room(&mut self, room: Rect) -> (carved: bool)
        requires
            old(self).wf(),
        ensures
            final(self).wf(),
            carved == keeps_clear(old(self).rooms@, room),
            final(self).rooms@ == old(self).rooms@.push(room),
            final(self).map@ == (if carved {
                dig(old(self).map@, room_cells(room))
            } else {
                old(self).map@
            }),
            forall|i: int|
                0 <= i < NUM_TILES && final(self).map@[i] != old(self).map@[i]
                    ==> final(self).map@[i] == TileType::Floor && playable(point_of(i))
                    && room.contains(point_of(i)),
            final(self).starting_point == old(self).starting_point,
    {
        let mut overlap: bool = false;
        let mut i: usize = 0;
        while i < self.rooms.len()
            invariant
                i <= self.rooms@.len(),
                self.wf(),
                self.map@ == old(self).map@,
                self.rooms@ == old(self).rooms@,
                self.starting_point == old(self).starting_point,
                !overlap <==> keeps_clear(self.rooms@.take(i as int), room),
            decreases self.rooms@.len() - i,
        {
            if self.rooms[i].intersect(&room) {
                overlap = true;
                assert(self.rooms@.take(i + 1)[i as int] == self.rooms@[i as int]);
            } else {
                proof {
                    let shorter = self.rooms@.take(i as int);
                    let longer = self.rooms@.take(i + 1);
                    if keeps_clear(shorter, room) {
                        assert forall|j: int| 0 <= j < longer.len() implies !(#[trigger] longer[j])
                            .spec_intersect(&room) by {
                            if j < i {
                                assert(shorter[j] == longer[j]);
                            }
                        }
                    } else {
                        let j = choose|j: int|
                            0 <= j < shorter.len() && (#[trigger] shorter[j]).spec_intersect(&room);
                        assert(longer[j] == shorter[j]);
                    }
                }
            }
            i += 1;
        }
        assert(self.rooms@.take(i as int) =~= self.rooms@);
        if !overlap {
            self.carve_room(room);
        }
        self.rooms.push(room);
        !overlap
    }

    /// Samples rooms from `rng` until the list holds `NUM_ROOMS` of them,
    /// and places each as `place_room` does. A room takes four draws: the
    /// origin's x from `[1, ROOM_X_LIMIT)`, its y from `[1, ROOM_Y_LIMIT)`,
    /// then the width and the height from `[ROOM_SIZE_MIN, ROOM_SIZE_LIMIT)`.
    /// Every sampled room enters the list, carved or not, so a list that
    /// is short of `n` rooms is full after `n` samples.
    pub fn build_random_rooms<R: RandomSource>(&mut self, rng: &mut R)
        requires
            old(self).wf(),
        ensures
            final(self).wf(),
            final(self).rooms@ == old(self).rooms@ + sampled_rooms(
                *old(rng),
                rooms_missing(old(self).rooms@.len()),
            ),
            *final(rng) == after_rooms(*old(rng), rooms_missing(old(self).rooms@.len())),
            final(self).map@ == dig(
                old(self).map@,
                carved_cells(final(self).rooms@, old(self).rooms@.len() as int),
            ),
            forall|i: int|
                0 <= i < NUM_TILES && final(self).map@[i] != old(self).map@[i]
                    ==> final(self).map@[i] == TileType::Floor && playable(point_of(i)),
            final(self).starting_point == old(self).starting_point,
    {
        let ghost source = *rng;
        let ghost before = self.map@;
        let ghost given = self.rooms@;
        proof {
            lemma_carved_cells_none(given, given.len() as int);
            lemma_dig_nothing(before);
            assert(given + sampled_rooms(source, 0) =~= given);
        }
        while self.rooms.len() < NUM_ROOMS
            invariant
                self.wf(),
                given.len() <= self.rooms@.len(),
                self.rooms@.len() - given.len() <= rooms_missing(given.len()),
                self.rooms@ == given + sampled_rooms(
                    source,
                    (self.rooms@.len() - given.len()) as nat,
                ),
                *rng == after_rooms(source, (self.rooms@.len() - given.len()) as nat),
                self.map@ == dig(before, carved_cells(self.rooms@, given.len() as int)),
                self.starting_point == old(self).starting_point,
            decreases NUM_ROOMS - self.rooms@.len(),
        {
            let ghost drawn = (self.rooms@.len() - given.len()) as nat;
            let ghost listed = self.rooms@;
            let x: i32 = rng.range(1, ROOM_X_LIMIT);
            let y: i32 = rng.range(1, ROOM_Y_LIMIT);
            let w: i32 = rng.range(ROOM_SIZE_MIN, ROOM_SIZE_LIMIT);
            let h: i32 = rng.range(ROOM_SIZE_MIN, ROOM_SIZE_LIMIT);
            let room = Rect::with_size(x, y, w, h);
            assert(room == sampled_room(after_rooms(source, drawn)));
            self.place_room(room);
            proof {
                lemma_carved_cells_push(listed, room, given.len() as int);
                lemma_dig_union(before, carved_cells(listed, given.len() as int), room_cells(room));
                assert(self.rooms@ =~= given + sampled_rooms(source, drawn + 1));
            }
        }
        assert(self.rooms@.len() - given.len() == rooms_missing(given.len()));
    }

    /// Turns to floor the cells of column `x` from the smaller of `y1` and
    /// `y2` up to, but not including, the larger. Cells that would lie
    /// outside the grid are passed over.
    pub fn carve_vertical_tunnel(&mut self, y1: i32, y2: i32, x: i32)
        requires
            old(self).wf(),
        ensures
            final(self).wf(),
            final(self).map@ == dig(old(self).map@, column_cells(y1 as int, y2 as int, x as int)),
            forall|i: int|
                0 <= i < NUM_TILES && final(self).map@[i] != old(self).map@[i]
                    ==> final(self).map@[i] == TileType::Floor
                    && column_cells(y1 as int, y2 as int, x as int).contains(point_of(i)),
            final(self).rooms@ == old(self).rooms@,
            final(self).starting_point == old(self).starting_point,
    {
        let ghost before = self.map@;
        let low: i32 = if y1 < y2 { y1 } else { y2 };
        let high: i32 = if y1 < y2 { y2 } else { y1 };
        let mut y: i32 = low;
        assert(self.map@ =~= dig(before, column_cells(low as int, y as int, x as int)));
        while y < high
            invariant
                low <= y <= high,
                self.wf(),
                self.map@ == dig(before, column_cells(low as int, y as int, x as int)),
                self.rooms@ == old(self).rooms@,
                self.starting_point == old(self).starting_point,
            decreases high - y,
        {
            if let Some(idx) = self.map.try_idx(Point::new(x, y)) {
                self.map.tiles.set(idx, TileType::Floor);
            }
            y += 1;
            assert(self.map@ =~= dig(before, column_cells(low as int, y as int, x as int)));
        }
        assert(column_cells(low as int, high as int, x as int)
            =~= column_cells(y1 as int, y2 as int, x as int));
    }

    /// Turns to floor the cells of row `y` from the smaller of `x1` and
    /// `x2` up to, but not including, the larger. Cells that would lie
    /// outside the grid are passed over.
    pub fn carve_horizontal_tunnel(&mut self, x1: i32, x2: i32, y: i32)
        requires
            old(self).wf(),
        ensures
            final(self).wf(),
            final(self).map@ == dig(old(self).map@, row_cells(x1 as int, x2 as int, y as int)),
            forall|i: int|
                0 <= i < NUM_TILES && final(self).map@[i] != old(self).map@[i]
                    ==> final(self).map@[i] == TileType::Floor
                    && row_cells(x1 as int, x2 as int, y as int).contains(point_of(i)),
            final(self).rooms@ == old(self).rooms@,
            final(self).starting_point == old(self).starting_point,
    {
        let ghost before = self.map@;
        let low: i32 = if x1 < x2 { x1 } else { x2 };
        let high: i32 = if x1 < x2 { x2 } else { x1 };
        let mut x: i32 = low;
        assert(self.map@ =~= dig(before, row_cells(low as int, x as int, y as int)));
        while x < high
            invariant
                low <= x <= high,
                self.wf(),
                self.map@ == dig(before, row_cells(low as int, x as int, y as int)),
                self.rooms@ == old(self).rooms@,
                self.starting_point == old(self).starting_point,
            decreases high - x,
        {
            if let Some(idx) = self.map.try_idx(Point::new(x, y)) {
                self.map.tiles.set(idx, TileType::Floor);
            }
            x += 1;
            assert(self.map@ =~= dig(before, row_cells(low as int, x as int, y as int)));
        }
        assert(row_cells(low as int, high as int, y as int)
            =~= row_cells(x1 as int, x2 as int, y as int));
    }

    /// Links the rooms from left to right. The rooms are taken in
    /// ascending order of the x-coordinate of their centers, rooms that
    /// share it in the order of the list. For each room but the first, one
    /// draw from `[0, 2)` is made, and on the value 1 a horizontal tunnel
    /// is dug from the center of the room before it to the column of its
    /// own center. The list of rooms itself keeps its order.
    pub fn build_corridors<R: RandomSource>(&mut self, rng: &mut R)
        requires
            old(self).wf(),
        ensures
            final(self).wf(),
            final(self).map@ == dig(
                old(self).map@,
                corridor_cells(
                    sorted_by_center_x(old(self).rooms@),
                    flips(*old(rng), links(old(self).rooms@.len())),
                ),
            ),
            *final(rng) == after_flips(*old(rng), links(old(self).rooms@.len())),
            final(self).rooms@ == old(self).rooms@,
            final(self).starting_point == old(self).starting_point,
    {
        let ghost source = *rng;
        let ghost before = self.map@;
        let rooms = sort_by_center_x(&self.rooms);
        let ghost decisions = flips(source, links(rooms@.len()));
        proof {
            lemma_corridor_cells_first(rooms@, decisions, 1);
            lemma_dig_nothing(before);
            lemma_flips_len(source, links(rooms@.len()));
        }
        let mut i: usize = 1;
        while i < rooms.len()
            invariant
                1 <= i,
                i <= rooms@.len() || rooms@.len() == 0 && i == 1,
                rooms@ == sorted_by_center_x(old(self).rooms@),
                rooms@.len() == old(self).rooms@.len(),
                decisions == flips(source, links(rooms@.len())),
                decisions.len() == links(rooms@.len()),
                self.wf(),
                self.map@ == dig(before, corridor_cells_upto(rooms@, decisions, i as int)),
                *rng == after_flips(source, (i - 1) as nat),
                self.rooms@ == old(self).rooms@,
                self.starting_point == old(self).starting_point,
            decreases rooms@.len() - i,
        {
            let ghost dug = corridor_cells_upto(rooms@, decisions, i as int);
            let previous_center = rooms[i - 1].center();
            let current_center = rooms[i].center();
            proof {
                lemma_flips_index(source, links(rooms@.len()), i - 1);
                lemma_corridor_cells_next(rooms@, decisions, i as int);
            }
            if rng.range(0, 2) == 1 {
                self.carve_horizontal_tunnel(
                    previous_center.x,
                    current_center.x,
                    previous_center.y,
                );
                proof {
                    lemma_dig_union(before, dug, link_cells(rooms@[i - 1], rooms@[i as int]));
                }
            }
            i += 1;
        }
        proof {
            if rooms@.len() == 0 {
                lemma_corridor_cells_first(rooms@, decisions, 0);
            }
        }
    }

    /// Builds a level from `rng`: a grid of solid wall, then `NUM_ROOMS`
    /// sampled rooms, then the corridors. The player starts at the center
    /// of the room sampled first, which is a floor tile.
    pub fn build<R: RandomSource>(rng: &mut R) -> (level: MapBuilder)
        ensures
            level.wf(),
            level.rooms@ == level_rooms(*old(rng)),
            level.map@ == level_tiles(*old(rng)),
            level.starting_point == level_start(*old(rng)),
            tile_at(level.map@, level.starting_point) == Some(TileType::Floor),
            *final(rng) == after_level(*old(rng)),
    {
        let ghost source = *rng;
        let mut level = MapBuilder::new();
        level.fill(TileType::Wall);
        level.build_random_rooms(rng);
        proof {
            lemma_sampled_rooms_in_range(source, NUM_ROOMS as nat);
            assert(level.rooms@ =~= level_rooms(source));
        }
        level.build_corridors(rng);
        level.starting_point = level.rooms[0].center();
        proof {
            lemma_level_start_is_floor(source);
        }
        level
    }
}

} // verus!
