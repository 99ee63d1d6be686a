//! What corridor carving produces, as a function of the random source.
//!
//! Rooms are taken from left to right, by the x-coordinate of their
//! centers. For each room but the first, one draw from `[0, 2)` decides
//! whether a horizontal tunnel links it to the room before it: a tunnel is
//! dug on the value 1 and on no other. A room whose draw is not 1 gets no
//! tunnel of another kind either, so a level may hold rooms that no
//! corridor reaches.

use crate::geometry::{Point, Rect};
use crate::grid::{dig, in_bounds, lemma_point_round_trip, tile_at, TileType, NUM_TILES};
use crate::random::RandomSource;
use crate::sorting::{center_x, is_ordered};
use vstd::prelude::*;

verus! {

/// The cells of row `y` from the smaller of `x1` and `x2` up to, but not
/// including, the larger.
pub open spec fn row_cells(x1: int, x2: int, y: int) -> Set<Point> {
    Set::new(|p: Point| p.y == y && (x1 <= p.x < x2 || x2 <= p.x < x1))
}

/// The cells of column `x` from the smaller of `y1` and `y2` up to, but
/// not including, the larger.
pub open spec fn column_cells(y1: int, y2: int, x: int) -> Set<Point> {
    Set::new(|p: Point| p.x == x && (y1 <= p.y < y2 || y2 <= p.y < y1))
}

/// The cells of the tunnel that links `from` to `to`: it runs between the
/// x-coordinates of the two centers, in the row of the center of `from`.
pub open spec fn link_cells(from: Rect, to: Rect) -> Set<Point> {
    row_cells(
        from.spec_center().x as int,
        to.spec_center().x as int,
        from.spec_center().y as int,
    )
}

/// How many links are decided for `rooms` rooms: one for each room but
/// the first.
pub open spec fn links(rooms: nat) -> nat {
    if rooms == 0 {
        0
    } else {
        (rooms - 1) as nat
    }
}

/// The source after `count` draws from `[0, 2)`.
pub open spec fn after_flips<R: RandomSource>(rng: R, count: nat) -> R
    decreases count,
{
    if count == 0 {
        rng
    } else {
        after_flips(rng, (count - 1) as nat).rest(0, 2)
    }
}

/// The first `count` decisions drawn from `rng`: each is `true` when the
/// draw from `[0, 2)` is 1.
pub open spec fn flips<R: RandomSource>(rng: R, count: nat) -> Seq<bool>
    decreases count,
{
    if count == 0 {
        Seq::empty()
    } else {
        flips(rng, (count - 1) as nat).push(after_flips(rng, (count - 1) as nat).drawn(0, 2) == 1)
    }
}

/// Whether the room at position `k` is linked to the room before it:
/// `decisions` holds the decision for position `k` at index `k - 1`.
pub open spec fn is_linked(decisions: Seq<bool>, k: int) -> bool {
    1 <= k <= decisions.len() && decisions[k - 1]
}

/// Whether `p` is a cell of the tunnel that links the room at position `k`
/// of `sorted` to the room before it.
pub open spec fn on_link(sorted: Seq<Rect>, decisions: Seq<bool>, k: int, p: Point) -> bool {
    &&& 1 <= k < sorted.len()
    &&& is_linked(decisions, k)
    &&& link_cells(sorted[k - 1], sorted[k]).contains(p)
}

/// The cells of the tunnels dug for the rooms of `sorted` at positions
/// below `upto`.
pub open spec fn corridor_cells_upto(
    sorted: Seq<Rect>,
    decisions: Seq<bool>,
    upto: int,
) -> Set<Point> {
    Set::new(|p: Point| exists|k: int| k < upto && #[trigger] on_link(sorted, decisions, k, p))
}

/// The cells of all tunnels dug for the rooms of `sorted`, which are taken
/// in the order given.
pub open spec fn corridor_cells(sorted: Seq<Rect>, decisions: Seq<bool>) -> Set<Point> {
    corridor_cells_upto(sorted, decisions, sorted.len() as int)
}

/// `count` decisions are `count` draws, each made from the source as the
/// draws before it left it.
pub proof fn lemma_flips_index<R: RandomSource>(rng: R, count: nat, j: int)
    requires
        0 <= j < count,
    ensures
        flips(rng, count).len() == count,
        flips(rng, count)[j] == (after_flips(rng, j as nat).drawn(0, 2) == 1),
    decreases count,
{
    lemma_flips_len(rng, count);
    if j < count - 1 {
        lemma_flips_index(rng, (count - 1) as nat, j);
    }
}

/// `count` draws give `count` decisions.
pub proof fn lemma_flips_len<R: RandomSource>(rng: R, count: nat)
    ensures
        flips(rng, count).len() == count,
    decreases count,
{
    if count > 0 {
        lemma_flips_len(rng, (count - 1) as nat);
    }
}

/// No tunnel is dug before the second room.
pub proof fn lemma_corridor_cells_first(sorted: Seq<Rect>, decisions: Seq<bool>, upto: int)
    requires
        upto <= 1 || sorted.len() <= 1,
    ensures
        corridor_cells_upto(sorted, decisions, upto) == Set::<Point>::empty(),
{
    assert(corridor_cells_upto(sorted, decisions, upto) =~= Set::<Point>::empty());
}

/// The room at position `k` adds the cells of its link if it is linked,
/// and nothing if it is not.
pub proof fn lemma_corridor_cells_next(sorted: Seq<Rect>, decisions: Seq<bool>, k: int)
    requires
        1 <= k < sorted.len(),
    ensures
        corridor_cells_upto(sorted, decisions, k + 1) == (if is_linked(decisions, k) {
            corridor_cells_upto(sorted, decisions, k).union(link_cells(sorted[k - 1], sorted[k]))
        } else {
            corridor_cells_upto(sorted, decisions, k)
        }),
{
    let expected = if is_linked(decisions, k) {
        corridor_cells_upto(sorted, decisions, k).union(link_cells(sorted[k - 1], sorted[k]))
    } else {
        corridor_cells_upto(sorted, decisions, k)
    };
    assert forall|p: Point|
        corridor_cells_upto(sorted, decisions, k + 1).contains(p) <==> expected.contains(p) by {
        if corridor_cells_upto(sorted, decisions, k).contains(p) {
            let j = choose|j: int| j < k && #[trigger] on_link(sorted, decisions, j, p);
            assert(j < k + 1 && on_link(sorted, decisions, j, p));
        }
        if is_linked(decisions, k) && link_cells(sorted[k - 1], sorted[k]).contains(p) {
            assert(k < k + 1 && on_link(sorted, decisions, k, p));
        }
    }
    assert(corridor_cells_upto(sorted, decisions, k + 1) =~= expected);
}

/// Every corridor cell lies on the link of two rooms that are neighbours
/// in `sorted`, in the row of the left one's center and between the
/// columns of the two centers.
pub proof fn lemma_corridor_cell_on_link(sorted: Seq<Rect>, decisions: Seq<bool>, p: Point)
    requires
        corridor_cells(sorted, decisions).contains(p),
    ensures
        exists|k: int| #[trigger] on_link(sorted, decisions, k, p),
{
    let k = choose|k: int| k < sorted.len() as int && #[trigger] on_link(sorted, decisions, k, p);
    assert(on_link(sorted, decisions, k, p));
}

/// Once the corridors are dug, every cell of the grid on the link of a
/// linked room is floor.
pub proof fn lemma_linked_cells_are_floor(
    tiles: Seq<TileType>,
    sorted: Seq<Rect>,
    decisions: Seq<bool>,
    k: int,
    p: Point,
)
    requires
        tiles.len() == NUM_TILES,
        1 <= k < sorted.len(),
        is_linked(decisions, k),
        link_cells(sorted[k - 1], sorted[k]).contains(p),
        in_bounds(p),
    ensures
        tile_at(dig(tiles, corridor_cells(sorted, decisions)), p) == Some(TileType::Floor),
{
    lemma_point_round_trip(p);
    assert(on_link(sorted, decisions, k, p));
    assert(corridor_cells(sorted, decisions).contains(p));
}

/// Between rooms in ascending order a link runs from left to right: from
/// the center of the left room up to, but not including, the column of
/// the center of the right one.
pub proof fn lemma_link_runs_right(sorted: Seq<Rect>, k: int, p: Point)
    requires
        is_ordered(sorted),
        1 <= k < sorted.len(),
    ensures
        link_cells(sorted[k - 1], sorted[k]).contains(p) <==> p.y == sorted[k - 1].spec_center().y
            && center_x(sorted[k - 1]) <= p.x < center_x(sorted[k]),
{
}

} // verus!
