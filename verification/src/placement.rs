//! What room placement produces, as a function of the random source.
//!
//! Every sampled room is kept in the list of rooms. A room is carved, that
//! is stamped into the grid, only if it intersects none of the rooms
//! sampled before it, carved or not.

use crate::geometry::{Point, Rect};
use crate::grid::{dig, lemma_point_round_trip, playable, tile_at, TileType, NUM_TILES};
use crate::random::RandomSource;
use vstd::prelude::*;

verus! {

/// Number of rooms a level is given.
pub const NUM_ROOMS: usize = 20;

/// Room origins have `1 <= x < ROOM_X_LIMIT`: nine tenths of the width.
pub const ROOM_X_LIMIT: i32 = 72;

/// Room origins have `1 <= y < ROOM_Y_LIMIT`: nine tenths of the height.
pub const ROOM_Y_LIMIT: i32 = 45;

/// Rooms are at least this wide and high.
pub const ROOM_SIZE_MIN: i32 = 2;

/// Rooms are less than this wide and high.
pub const ROOM_SIZE_LIMIT: i32 = 10;

/// The cells that a room turns to floor: those it covers, except where it
/// reaches beyond the grid or into the top row.
pub open spec fn room_cells(room: Rect) -> Set<Point> {
    Set::new(|p: Point| room.contains(p) && playable(p))
}

/// Whether `room` intersects none of `rooms`.
pub open spec fn keeps_clear(rooms: Seq<Rect>, room: Rect) -> bool {
    forall|j: int| 0 <= j < rooms.len() ==> !(#[trigger] rooms[j]).spec_intersect(&room)
}

/// Whether the room at position `k` of `rooms` is carved: it intersects
/// none of the rooms before it.
pub open spec fn is_carved(rooms: Seq<Rect>, k: int) -> bool {
    0 <= k < rooms.len() && keeps_clear(rooms.take(k), rooms[k])
}

/// Whether `p` is a cell that the room at position `k` of `rooms` turns to
/// floor: the room is carved and `p` is one of its cells.
pub open spec fn in_carved_room(rooms: Seq<Rect>, k: int, p: Point) -> bool {
    is_carved(rooms, k) && room_cells(rooms[k]).contains(p)
}

/// The cells turned to floor by the carved rooms of `rooms` from position
/// `from` on.
pub open spec fn carved_cells(rooms: Seq<Rect>, from: int) -> Set<Point> {
    Set::new(|p: Point| exists|k: int| from <= k && #[trigger] in_carved_room(rooms, k, p))
}

/// How many rooms are sampled when `have` rooms are in the list already.
pub open spec fn rooms_missing(have: nat) -> nat {
    if have < NUM_ROOMS {
        (NUM_ROOMS - have) as nat
    } else {
        0
    }
}

/// The room made of the next four draws of `rng`: the origin's x and y,
/// then the width and the height.
pub open spec fn sampled_room<R: RandomSource>(rng: R) -> Rect {
    let after_x = rng.rest(1, ROOM_X_LIMIT as int);
    let after_y = after_x.rest(1, ROOM_Y_LIMIT as int);
    let after_w = after_y.rest(ROOM_SIZE_MIN as int, ROOM_SIZE_LIMIT as int);
    Rect::sized(
        rng.drawn(1, ROOM_X_LIMIT as int),
        after_x.drawn(1, ROOM_Y_LIMIT as int),
        after_y.drawn(ROOM_SIZE_MIN as int, ROOM_SIZE_LIMIT as int),
        after_w.drawn(ROOM_SIZE_MIN as int, ROOM_SIZE_LIMIT as int),
    )
}

/// The source after the four draws that make one room.
pub open spec fn after_room<R: RandomSource>(rng: R) -> R {
    rng.rest(1, ROOM_X_LIMIT as int).rest(1, ROOM_Y_LIMIT as int).rest(
        ROOM_SIZE_MIN as int,
        ROOM_SIZE_LIMIT as int,
    ).rest(ROOM_SIZE_MIN as int, ROOM_SIZE_LIMIT as int)
}

/// The source after the draws that make `count` rooms.
pub open spec fn after_rooms<R: RandomSource>(rng: R, count: nat) -> R
    decreases count,
{
    if count == 0 {
        rng
    } else {
        after_room(after_rooms(rng, (count - 1) as nat))
    }
}

/// The first `count` rooms sampled from `rng`, in the order of sampling.
pub open spec fn sampled_rooms<R: RandomSource>(rng: R, count: nat) -> Seq<Rect>
    decreases count,
{
    if count == 0 {
        Seq::empty()
    } else {
        sampled_rooms(rng, (count - 1) as nat).push(
            sampled_room(after_rooms(rng, (count - 1) as nat)),
        )
    }
}

/// Whether `room` has an origin and a size that sampling can produce.
pub open spec fn in_sampling_range(room: Rect) -> bool {
    &&& 1 <= room.x1 < ROOM_X_LIMIT
    &&& 1 <= room.y1 < ROOM_Y_LIMIT
    &&& ROOM_SIZE_MIN <= room.x2 - room.x1 < ROOM_SIZE_LIMIT
    &&& ROOM_SIZE_MIN <= room.y2 - room.y1 < ROOM_SIZE_LIMIT
}

/// A sampled room has its origin and size in the sampling range.
pub proof fn lemma_sampled_room_in_range<R: RandomSource>(rng: R)
    ensures
        in_sampling_range(sampled_room(rng)),
{
    let after_x = rng.rest(1, ROOM_X_LIMIT as int);
    let after_y = after_x.rest(1, ROOM_Y_LIMIT as int);
    let after_w = after_y.rest(ROOM_SIZE_MIN as int, ROOM_SIZE_LIMIT as int);
    rng.lemma_drawn_in_range(1, ROOM_X_LIMIT as int);
    after_x.lemma_drawn_in_range(1, ROOM_Y_LIMIT as int);
    after_y.lemma_drawn_in_range(ROOM_SIZE_MIN as int, ROOM_SIZE_LIMIT as int);
    after_w.lemma_drawn_in_range(ROOM_SIZE_MIN as int, ROOM_SIZE_LIMIT as int);
}

/// Sampling `count` rooms gives `count` rooms, each in the sampling range.
pub proof fn lemma_sampled_rooms_in_range<R: RandomSource>(rng: R, count: nat)
    ensures
        sampled_rooms(rng, count).len() == count,
        forall|k: int|
            0 <= k < count ==> in_sampling_range(#[trigger] sampled_rooms(rng, count)[k]),
    decreases count,
{
    if count > 0 {
        lemma_sampled_rooms_in_range(rng, (count - 1) as nat);
        lemma_sampled_room_in_range(after_rooms(rng, (count - 1) as nat));
    }
}

/// The center of a room in the sampling range is one of the cells that
/// the room turns to floor.
pub proof fn lemma_center_of_sampled_room(room: Rect)
    requires
        in_sampling_range(room),
    ensures
        room_cells(room).contains(room.spec_center()),
{
}

/// Two carved rooms of one list never intersect, and share no cell.
pub proof fn lemma_carved_rooms_keep_apart(rooms: Seq<Rect>, i: int, j: int)
    requires
        is_carved(rooms, i),
        is_carved(rooms, j),
        i != j,
    ensures
        !rooms[i].spec_intersect(&rooms[j]),
        room_cells(rooms[i]).disjoint(room_cells(rooms[j])),
{
    if i < j {
        assert(rooms.take(j)[i] == rooms[i]);
    } else {
        assert(rooms.take(i)[j] == rooms[j]);
    }
}

/// Every cell turned to floor by room placement lies in the grid and
/// below its top row, inside a carved room.
pub proof fn lemma_carved_cells_playable(rooms: Seq<Rect>, from: int, p: Point)
    requires
        carved_cells(rooms, from).contains(p),
    ensures
        playable(p),
        exists|k: int| from <= k && #[trigger] is_carved(rooms, k) && rooms[k].contains(p),
{
    let k = choose|k: int| from <= k && #[trigger] in_carved_room(rooms, k, p);
    assert(is_carved(rooms, k) && rooms[k].contains(p));
}

/// Once the rooms are placed, every cell of a carved room that lies in the
/// grid and below its top row is floor.
pub proof fn lemma_carved_room_is_floor(
    tiles: Seq<TileType>,
    rooms: Seq<Rect>,
    from: int,
    k: int,
    p: Point,
)
    requires
        tiles.len() == NUM_TILES,
        from <= k,
        is_carved(rooms, k),
        rooms[k].contains(p),
        playable(p),
    ensures
        tile_at(dig(tiles, carved_cells(rooms, from)), p) == Some(TileType::Floor),
{
    lemma_point_round_trip(p);
    assert(in_carved_room(rooms, k, p));
}

/// Whether a room of a longer list is carved depends only on the rooms up
/// to and including it.
pub proof fn lemma_is_carved_prefix(rooms: Seq<Rect>, room: Rect, k: int)
    requires
        0 <= k <= rooms.len(),
    ensures
        k < rooms.len() ==> is_carved(rooms.push(room), k) == is_carved(rooms, k),
        k == rooms.len() ==> is_carved(rooms.push(room), k) == keeps_clear(rooms, room),
{
    let longer = rooms.push(room);
    if k < rooms.len() {
        assert(longer.take(k) =~= rooms.take(k));
    } else {
        assert(longer.take(k) =~= rooms);
    }
}

/// One more room adds its cells to the carved cells if it keeps clear of
/// the rooms before it, and nothing if it does not.
pub proof fn lemma_carved_cells_push(rooms: Seq<Rect>, room: Rect, from: int)
    requires
        0 <= from <= rooms.len(),
    ensures
        carved_cells(rooms.push(room), from) == (if keeps_clear(rooms, room) {
            carved_cells(rooms, from).union(room_cells(room))
        } else {
            carved_cells(rooms, from)
        }),
{
    let longer = rooms.push(room);
    let expected = if keeps_clear(rooms, room) {
        carved_cells(rooms, from).union(room_cells(room))
    } else {
        carved_cells(rooms, from)
    };
    assert forall|p: Point| carved_cells(longer, from).contains(p) <==> expected.contains(p) by {
        if carved_cells(longer, from).contains(p) {
            let k = choose|k: int| from <= k && #[trigger] in_carved_room(longer, k, p);
            lemma_is_carved_prefix(rooms, room, k);
            if k < rooms.len() {
                assert(in_carved_room(rooms, k, p));
            }
        }
        if carved_cells(rooms, from).contains(p) {
            let k = choose|k: int| from <= k && #[trigger] in_carved_room(rooms, k, p);
            lemma_is_carved_prefix(rooms, room, k);
            assert(in_carved_room(longer, k, p));
        }
        if keeps_clear(rooms, room) && room_cells(room).contains(p) {
            let k = rooms.len() as int;
            lemma_is_carved_prefix(rooms, room, k);
            assert(in_carved_room(longer, k, p));
        }
    }
    assert(carved_cells(longer, from) =~= expected);
}

/// No room is carved from a position behind the last.
pub proof fn lemma_carved_cells_none(rooms: Seq<Rect>, from: int)
    requires
        from >= rooms.len(),
    ensures
        carved_cells(rooms, from) == Set::<Point>::empty(),
{
    assert(carved_cells(rooms, from) =~= Set::<Point>::empty());
}

} // verus!
