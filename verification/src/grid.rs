//! The tile grid of one level and its coordinate-to-index mapping.

use crate::geometry::Point;
use vstd::prelude::*;

verus! {

/// Number of columns.
pub const SCREEN_WIDTH: i32 = 80;

/// Number of rows.
pub const SCREEN_HEIGHT: i32 = 50;

/// Number of cells: `SCREEN_WIDTH * SCREEN_HEIGHT`.
pub const NUM_TILES: usize = 4000;

/// Whether a cell can be walked on.
#[derive(Clone, Copy, Debug, PartialEq, Eq, Structural)]
pub enum TileType {
    Wall,
    Floor,
}

/// Whether `p` names a cell of the grid.
pub open spec fn in_bounds(p: Point) -> bool {
    0 <= p.x < SCREEN_WIDTH && 0 <= p.y < SCREEN_HEIGHT
}

/// Whether `p` names a cell that rooms may occupy: any cell of the grid
/// except those of the top row, which stays wall as a border.
pub open spec fn playable(p: Point) -> bool {
    0 <= p.x < SCREEN_WIDTH && 0 < p.y < SCREEN_HEIGHT
}

/// The row-major index of `p`.
pub open spec fn index_of(p: Point) -> int {
    p.y * SCREEN_WIDTH + p.x
}

/// The point stored at index `i`: the inverse of `index_of` on the grid.
pub open spec fn point_of(i: int) -> Point {
    Point { x: (i % (SCREEN_WIDTH as int)) as i32, y: (i / (SCREEN_WIDTH as int)) as i32 }
}

/// The fallible index of `p`: present exactly for the cells of the grid.
pub open spec fn try_index_of(p: Point) -> Option<int> {
    if in_bounds(p) {
        Some(index_of(p))
    } else {
        None
    }
}

/// What `tiles` holds at `p`, if `p` is a cell of the grid.
pub open spec fn tile_at(tiles: Seq<TileType>, p: Point) -> Option<TileType> {
    if in_bounds(p) {
        Some(tiles[index_of(p)])
    } else {
        None
    }
}

/// `len` tiles, each of them `tile`.
pub open spec fn filled(len: nat, tile: TileType) -> Seq<TileType> {
    Seq::new(len, |i: int| tile)
}

/// `tiles` with every cell of `cells` turned to floor. Points of `cells`
/// outside the grid have no cell and change nothing.
pub open spec fn dig(tiles: Seq<TileType>, cells: Set<Point>) -> Seq<TileType> {
    Seq::new(
        tiles.len(),
        |i: int|
            if cells.contains(point_of(i)) {
                TileType::Floor
            } else {
                tiles[i]
            },
    )
}

/// The grid has one index for each pair of a column and a row.
pub proof fn lemma_tile_count()
    ensures
        NUM_TILES == SCREEN_WIDTH * SCREEN_HEIGHT,
{
}

/// Every cell of the grid has an index below `NUM_TILES`, and `point_of`
/// leads back from that index to the cell.
pub proof fn lemma_point_round_trip(p: Point)
    requires
        in_bounds(p),
    ensures
        0 <= index_of(p) < NUM_TILES,
        point_of(index_of(p)) == p,
{
}

/// Every index below `NUM_TILES` belongs to a cell of the grid, and
/// `index_of` leads back from that cell to the index.
pub proof fn lemma_index_round_trip(i: int)
    requires
        0 <= i < NUM_TILES,
    ensures
        in_bounds(point_of(i)),
        index_of(point_of(i)) == i,
{
}

/// Distinct cells of the grid have distinct indices.
pub proof fn lemma_index_injective(p: Point, q: Point)
    requires
        in_bounds(p),
        in_bounds(q),
        index_of(p) == index_of(q),
    ensures
        p == q,
{
    lemma_point_round_trip(p);
    lemma_point_round_trip(q);
}

/// No point outside the grid is given an index.
pub proof fn lemma_no_index_outside(p: Point)
    ensures
        try_index_of(p) is None <==> !in_bounds(p),
        try_index_of(p) matches Some(i) ==> 0 <= i < NUM_TILES && point_of(i) == p,
{
    if in_bounds(p) {
        lemma_point_round_trip(p);
    }
}

/// Digging twice is digging the union.
pub proof fn lemma_dig_union(tiles: Seq<TileType>, a: Set<Point>, b: Set<Point>)
    ensures
        dig(dig(tiles, a), b) == dig(tiles, a.union(b)),
{
    assert(dig(dig(tiles, a), b) =~= dig(tiles, a.union(b)));
}

/// Digging nothing changes nothing.
pub proof fn lemma_dig_nothing(tiles: Seq<TileType>)
    ensures
        dig(tiles, Set::empty()) == tiles,
{
    assert(dig(tiles, Set::empty()) =~= tiles);
}

/// Digging never turns floor into wall, and turns to floor only cells of
/// the set that was dug.
pub proof fn lemma_dig_only_adds_floor(tiles: Seq<TileType>, cells: Set<Point>, i: int)
    requires
        0 <= i < tiles.len(),
    ensures
        tiles[i] == TileType::Floor ==> dig(tiles, cells)[i] == TileType::Floor,
        dig(tiles, cells)[i] != tiles[i] ==> cells.contains(point_of(i)) && dig(tiles, cells)[i]
            == TileType::Floor,
{
}

/// Points outside the grid make no difference to what is dug: no index
/// stands for them, so no tile is written on their account.
pub proof fn lemma_dig_skips_outside(tiles: Seq<TileType>, cells: Set<Point>)
    requires
        tiles.len() == NUM_TILES,
    ensures
        dig(tiles, cells).len() == NUM_TILES,
        dig(tiles, cells) == dig(tiles, Set::new(|p: Point| cells.contains(p) && in_bounds(p))),
{
    let inside = Set::new(|p: Point| cells.contains(p) && in_bounds(p));
    assert forall|i: int| 0 <= i < tiles.len() implies dig(tiles, cells)[i] == dig(
        tiles,
        inside,
    )[i] by {
        lemma_index_round_trip(i);
    }
    assert(dig(tiles, cells) =~= dig(tiles, inside));
}

/// The index of the cell in column `x` and row `y`.
pub fn map_idx(x: i32, y: i32) -> (idx: usize)
    requires
        0 <= x < SCREEN_WIDTH,
        0 <= y < SCREEN_HEIGHT,
    ensures
        idx == y * SCREEN_WIDTH + x,
        idx == index_of(Point::at(x, y)),
        idx < NUM_TILES,
{
    (y * SCREEN_WIDTH + x) as usize
}

/// The tiles of one level in row-major order.
pub struct Grid {
    pub tiles: Vec<TileType>,
}

impl View for Grid {
    type V = Seq<TileType>;

    open spec fn view(&self) -> Seq<TileType> {
        self.tiles@
    }
}

impl Grid {
    /// A grid holds exactly one tile per cell.
    pub open spec fn wf(&self) -> bool {
        self.tiles@.len() == NUM_TILES
    }

    /// A grid of solid wall.
    pub fn new() -> (grid: Grid)
        ensures
            grid.wf(),
            grid@ == filled(NUM_TILES as nat, TileType::Wall),
    {
        let mut tiles: Vec<TileType> = Vec::new();
        while tiles.len() < NUM_TILES
            invariant
                tiles@.len() <= NUM_TILES,
                forall|i: int| 0 <= i < tiles@.len() ==> tiles@[i] == TileType::Wall,
            decreases NUM_TILES - tiles@.len(),
        {
            tiles.push(TileType::Wall);
        }
        assert(tiles@ =~= filled(NUM_TILES as nat, TileType::Wall));
        Grid { tiles }
    }

    /// Whether `point` names a cell of the grid.
    pub fn in_bounds(&self, point: Point) -> (inside: bool)
        ensures
            inside == in_bounds(point),
    {
        point.x >= 0 && point.x < SCREEN_WIDTH && point.y >= 0 && point.y < SCREEN_HEIGHT
    }

    /// The index of `point`, or `None` where `point` lies outside the grid.
    pub fn try_idx(&self, point: Point) -> (idx: Option<usize>)
        ensures
            idx is None <==> !in_bounds(point),
            idx matches Some(i) ==> i == index_of(point) && i < NUM_TILES && point_of(i as int)
                == point,
            try_index_of(point) == (match idx {
                Some(i) => Some(i as int),
                None => None,
            }),
    {
        if !self.in_bounds(point) {
            None
        } else {
            Some(map_idx(point.x, point.y))
        }
    }

    /// The cell stored at index `idx`.
    pub fn point_at(&self, idx: usize) -> (point: Point)
        requires
            idx < NUM_TILES,
        ensures
            point == point_of(idx as int),
            in_bounds(point),
            index_of(point) == idx,
    {
        let width: usize = SCREEN_WIDTH as usize;
        Point { x: (idx % width) as i32, y: (idx / width) as i32 }
    }

    /// The tile at `point`, or `None` where `point` lies outside the grid.
    pub fn tile(&self, point: Point) -> (t: Option<TileType>)
        requires
            self.wf(),
        ensures
            t == tile_at(self@, point),
    {
        match self.try_idx(point) {
            Some(idx) => Some(self.tiles[idx]),
            None => None,
        }
    }
}

} // verus!
