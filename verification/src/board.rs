//! Board model: grid dimensions, coordinates, tiles, the board itself and
//! its 8-neighbor topology.

use vstd::prelude::*;
use vstd::pervasive::VecAdditionalExecFns;

verus! {

/// Grid width in tiles.
pub const WIDTH: usize = 16;
/// Grid height in tiles.
pub const HEIGHT: usize = 6;
/// Total number of tiles on the board.
pub const TILES: usize = 96;

/// A grid coordinate. The board only ever holds in-bounds points, but the
/// type itself allows any pair so that neighbor arithmetic stays total.
#[derive(Copy, Clone, PartialEq, Eq, Structural, Debug)]
pub struct Point {
    pub x: i32,
    pub y: i32,
}

impl Point {
    pub fn new(x: i32, y: i32) -> (r: Point)
        ensures
            r.x == x,
            r.y == y,
    {
        Point { x, y }
    }
}

/// A point lies on the board.
pub open spec fn in_bounds(p: Point) -> bool {
    0 <= p.x < WIDTH as i32 && 0 <= p.y < HEIGHT as i32
}

/// Row-major linear index of a point.
pub open spec fn idx(p: Point) -> int {
    p.x + p.y * (WIDTH as int)
}

/// The point whose row-major index is `i`.
pub open spec fn point_at(i: int) -> Point {
    Point { x: (i % (WIDTH as int)) as i32, y: (i / (WIDTH as int)) as i32 }
}

pub proof fn lemma_idx_bounds(p: Point)
    requires
        in_bounds(p),
    ensures
        0 <= idx(p) < TILES as int,
{
}

pub proof fn lemma_point_at_idx(p: Point)
    requires
        in_bounds(p),
    ensures
        point_at(idx(p)) == p,
{
    let w = WIDTH as int;
    assert((p.x + p.y * w) % w == p.x && (p.x + p.y * w) / w == p.y) by (nonlinear_arith)
        requires
            0 <= p.x < w,
            0 <= p.y,
            w == 16,
    ;
}

pub proof fn lemma_idx_injective(a: Point, b: Point)
    requires
        in_bounds(a),
        in_bounds(b),
        idx(a) == idx(b),
    ensures
        a == b,
{
    lemma_point_at_idx(a);
    lemma_point_at_idx(b);
}

pub proof fn lemma_idx_point_at(i: int)
    requires
        0 <= i < TILES as int,
    ensures
        in_bounds(point_at(i)),
        idx(point_at(i)) == i,
{
    let w = WIDTH as int;
    assert(0 <= i % w < w && i % w + (i / w) * w == i && 0 <= i / w < 6) by (nonlinear_arith)
        requires
            0 <= i < 96,
            w == 16,
    ;
}

/// Player-visible reveal state of a tile.
#[derive(Copy, Clone, PartialEq, Eq, Structural, Debug)]
pub enum TileStatus {
    Closed,
    Flagged,
    Opened,
}

/// Ground truth of a tile: a bomb, or the count of neighboring bombs.
#[derive(Copy, Clone, PartialEq, Eq, Structural, Debug)]
pub enum TileContent {
    Bomb,
    Hint(u8),
}

/// A hint can never exceed the eight surrounding cells.
pub open spec fn content_ok(c: TileContent) -> bool {
    match c {
        TileContent::Bomb => true,
        TileContent::Hint(h) => h <= 8,
    }
}

/// One grid cell: reveal status and ground-truth content.
#[derive(Copy, Clone, PartialEq, Eq, Structural, Debug)]
pub struct Tile {
    pub status: TileStatus,
    pub content: TileContent,
}

impl Default for Tile {
    /// A fresh tile: closed, with no bomb and no neighboring bombs yet.
    fn default() -> (r: Self)
        ensures
            r.status == TileStatus::Closed,
            r.content == TileContent::Hint(0u8),
    {
        Tile { status: TileStatus::Closed, content: TileContent::Hint(0) }
    }
}

/// The tile every cell starts from: closed, hint zero.
pub open spec fn blank_tile() -> Tile {
    Tile { status: TileStatus::Closed, content: TileContent::Hint(0u8) }
}

/// Glyph shown for a tile: `-` closed, `.` flagged, `/` opened bomb,
/// `,` opened blank, digit for an opened hint.
pub open spec fn glyph_of(t: Tile) -> u8 {
    match t.status {
        TileStatus::Closed => 45u8,
        TileStatus::Flagged => 46u8,
        TileStatus::Opened => match t.content {
            TileContent::Bomb => 47u8,
            TileContent::Hint(h) => if h == 0 {
                44u8
            } else {
                (48 + h) as u8
            },
        },
    }
}

impl Tile {
    pub fn new(status: TileStatus, content: TileContent) -> (r: Self)
        requires
            content_ok(content),
        ensures
            r.status == status,
            r.content == content,
    {
        Tile { status, content }
    }

    pub fn status(&self) -> (r: TileStatus)
        ensures
            r == self.status,
    {
        self.status
    }

    pub fn content(&self) -> (r: TileContent)
        ensures
            r == self.content,
    {
        self.content
    }

    /// Display glyph for this tile.
    pub fn glyph(&self) -> (r: u8)
        requires
            content_ok(self.content),
        ensures
            r == glyph_of(*self),
    {
        match self.status {
            TileStatus::Closed => 45,
            TileStatus::Flagged => 46,
            TileStatus::Opened => match self.content {
                TileContent::Bomb => 47,
                TileContent::Hint(h) => if h == 0 {
                    44
                } else {
                    48 + h
                },
            },
        }
    }
}

/// Offset of the `k`-th neighbor, enumerating the eight compass directions
/// counter-clockwise from the upper-left.
pub open spec fn nbr_delta(k: int) -> (int, int) {
    if k == 0 {
        (-1, -1)
    } else if k == 1 {
        (-1, 0)
    } else if k == 2 {
        (-1, 1)
    } else if k == 3 {
        (0, 1)
    } else if k == 4 {
        (1, 1)
    } else if k == 5 {
        (1, 0)
    } else if k == 6 {
        (1, -1)
    } else {
        (0, -1)
    }
}

/// The `k`-th neighbor of `p` (possibly off the board).
pub open spec fn nbr_point(p: Point, k: int) -> Point {
    Point { x: (p.x + nbr_delta(k).0) as i32, y: (p.y + nbr_delta(k).1) as i32 }
}

/// `q` is one of the up-to-eight on-board neighbors of `p`.
pub open spec fn is_neighbor(p: Point, q: Point) -> bool {
    exists|k: int| 0 <= k < 8 && q == nbr_point(p, k) && in_bounds(q)
}

/// Bombs among the first `k` neighbor slots of `p` (off-board slots count 0).
pub open spec fn mines_near_upto(g: Seq<Tile>, p: Point, k: int) -> nat
    decreases k,
{
    if k <= 0 {
        0
    } else {
        mines_near_upto(g, p, k - 1) + if in_bounds(nbr_point(p, k - 1)) && g[idx(
            nbr_point(p, k - 1),
        )].content is Bomb {
            1nat
        } else {
            0nat
        }
    }
}

/// Count of on-board neighbors of `p` that hold a bomb.
pub open spec fn mines_near(g: Seq<Tile>, p: Point) -> nat {
    mines_near_upto(g, p, 8)
}

pub proof fn lemma_mines_near_upto_bound(g: Seq<Tile>, p: Point, k: int)
    requires
        0 <= k <= 8,
    ensures
        mines_near_upto(g, p, k) <= k,
    decreases k,
{
    if k > 0 {
        lemma_mines_near_upto_bound(g, p, k - 1);
    }
}

/// If no neighbor slot in `[a, b)` is on the board, the count through `b`
/// equals the count through `a`.
pub proof fn lemma_mines_near_upto_skip(g: Seq<Tile>, p: Point, a: int, b: int)
    requires
        0 <= a <= b,
        forall|j: int| a <= j < b ==> !in_bounds(nbr_point(p, j)),
    ensures
        mines_near_upto(g, p, b) == mines_near_upto(g, p, a),
    decreases b - a,
{
    if b > a {
        lemma_mines_near_upto_skip(g, p, a, b - 1);
    }
}

/// Bombs among the first `n` cells of the grid.
pub open spec fn count_bombs_upto(g: Seq<Tile>, n: int) -> nat
    decreases n,
{
    if n <= 0 {
        0
    } else {
        count_bombs_upto(g, n - 1) + if 0 <= n - 1 < g.len() && g[n - 1].content is Bomb {
            1nat
        } else {
            0nat
        }
    }
}

/// Bombs on the whole grid.
pub open spec fn count_bombs(g: Seq<Tile>) -> nat {
    count_bombs_upto(g, g.len() as int)
}

proof fn lemma_count_bombs_update_upto(g: Seq<Tile>, i: int, t: Tile, n: int)
    requires
        0 <= i < g.len(),
        !(g[i].content is Bomb),
        t.content is Bomb,
    ensures
        i < n ==> count_bombs_upto(g.update(i, t), n) == count_bombs_upto(g, n) + 1,
        i >= n ==> count_bombs_upto(g.update(i, t), n) == count_bombs_upto(g, n),
    decreases n,
{
    if n > 0 {
        lemma_count_bombs_update_upto(g, i, t, n - 1);
    }
}

/// Planting a bomb on a free cell raises the bomb count by one.
pub proof fn lemma_count_bombs_plant(g: Seq<Tile>, i: int, t: Tile)
    requires
        0 <= i < g.len(),
        !(g[i].content is Bomb),
        t.content is Bomb,
    ensures
        count_bombs(g.update(i, t)) == count_bombs(g) + 1,
{
    lemma_count_bombs_update_upto(g, i, t, g.len() as int);
}

/// Grids with the same bombs in the same cells have the same count.
pub proof fn lemma_count_bombs_same(g1: Seq<Tile>, g2: Seq<Tile>, n: int)
    requires
        g1.len() == g2.len(),
        forall|i: int| 0 <= i < g1.len() ==> ((#[trigger] g1[i]).content is Bomb <==> (
        #[trigger] g2[i]).content is Bomb),
    ensures
        count_bombs_upto(g1, n) == count_bombs_upto(g2, n),
    decreases n,
{
    if n > 0 {
        lemma_count_bombs_same(g1, g2, n - 1);
    }
}

/// A grid without a single bomb counts zero.
pub proof fn lemma_count_bombs_none(g: Seq<Tile>, n: int)
    requires
        forall|i: int| 0 <= i < g.len() ==> !((#[trigger] g[i]).content is Bomb),
    ensures
        count_bombs_upto(g, n) == 0,
    decreases n,
{
    if n > 0 {
        lemma_count_bombs_none(g, n - 1);
    }
}

/// The neighbor count only depends on where the bombs are.
pub proof fn lemma_mines_near_same_bombs(g1: Seq<Tile>, g2: Seq<Tile>, p: Point, k: int)
    requires
        0 <= k <= 8,
        g1.len() == TILES as int,
        g2.len() == TILES as int,
        forall|i: int| 0 <= i < TILES as int ==> (g1[i].content is Bomb <==> g2[i].content is Bomb),
    ensures
        mines_near_upto(g1, p, k) == mines_near_upto(g2, p, k),
    decreases k,
{
    if k > 0 {
        lemma_mines_near_same_bombs(g1, g2, p, k - 1);
        if in_bounds(nbr_point(p, k - 1)) {
            lemma_idx_bounds(nbr_point(p, k - 1));
        }
    }
}

/// All tiles fresh: the grid a game starts from.
pub open spec fn blank_grid() -> Seq<Tile> {
    Seq::new(TILES as nat, |i: int| blank_tile())
}

/// The playing field: one tile per cell plus the cursor.
pub struct Board {
    pub cursor: Point,
    pub tiles: Vec<Tile>,
}

impl Board {
    /// Structural invariant: full grid, in-bounds cursor, sane hints.
    pub open spec fn wf(&self) -> bool {
        &&& self.tiles@.len() == TILES as int
        &&& in_bounds(self.cursor)
        &&& forall|i: int| 0 <= i < TILES as int ==> content_ok(#[trigger] self.tiles@[i].content)
    }

    /// Fresh board: all tiles blank, cursor at the center of the grid.
    pub fn new() -> (r: Board)
        ensures
            r.wf(),
            r.tiles@ == blank_grid(),
            r.cursor == (Point { x: 8, y: 3 }),
    {
        let mut tiles: Vec<Tile> = Vec::new();
        let mut i: usize = 0;
        while i < TILES
            invariant
                i <= TILES,
                tiles@.len() == i as int,
                forall|j: int| 0 <= j < i as int ==> tiles@[j] == blank_tile(),
            decreases TILES - i,
        {
            tiles.push(Tile::default());
            i += 1;
        }
        proof {
            assert(tiles@ =~= blank_grid());
        }
        Board { tiles, cursor: Point::new((WIDTH / 2) as i32, (HEIGHT / 2) as i32) }
    }

    /// Return every tile to the blank state; the cursor stays put.
    pub fn reset(&mut self)
        requires
            old(self).wf(),
        ensures
            final(self).wf(),
            final(self).tiles@ == blank_grid(),
            final(self).cursor == old(self).cursor,
    {
        let mut i: usize = 0;
        while i < TILES
            invariant
                i <= TILES,
                self.tiles@.len() == TILES as int,
                self.cursor == old(self).cursor,
                in_bounds(self.cursor),
                forall|j: int| 0 <= j < i as int ==> self.tiles@[j] == blank_tile(),
                forall|j: int|
                    i as int <= j < TILES as int ==> content_ok(#[trigger] self.tiles@[j].content),
            decreases TILES - i,
        {
            self.tiles.set(i, Tile::default());
            i += 1;
        }
        proof {
            assert(self.tiles@ =~= blank_grid());
        }
    }

    /// Overwrite the reveal status of the tile at `pos`.
    pub fn set_status_at(&mut self, pos: Point, status: TileStatus)
        requires
            old(self).wf(),
            in_bounds(pos),
        ensures
            final(self).wf(),
            final(self).tiles@ == old(self).tiles@.update(
                idx(pos),
                Tile { status, content: old(self).tiles@[idx(pos)].content },
            ),
            final(self).cursor == old(self).cursor,
    {
        let offset = Self::point_offset(pos);
        let content = self.tiles[offset].content;
        self.tiles.set(offset, Tile { status, content });
    }

    /// Overwrite the ground-truth content of the tile at `pos`.
    pub fn set_content_at(&mut self, pos: Point, content: TileContent)
        requires
            old(self).wf(),
            in_bounds(pos),
            content_ok(content),
        ensures
            final(self).wf(),
            final(self).tiles@ == old(self).tiles@.update(
                idx(pos),
                Tile { status: old(self).tiles@[idx(pos)].status, content },
            ),
            final(self).cursor == old(self).cursor,
    {
        let offset = Self::point_offset(pos);
        let status = self.tiles[offset].status;
        self.tiles.set(offset, Tile { status, content });
    }

    /// The full tile sequence, row-major.
    pub fn tiles(&self) -> (r: &[Tile])
        ensures
            r@ == self.tiles@,
    {
        self.tiles.as_slice()
    }

    /// The tile at `pos`.
    pub fn tile_at(&self, pos: Point) -> (r: Tile)
        requires
            self.wf(),
            in_bounds(pos),
        ensures
            r == self.tiles@[idx(pos)],
    {
        self.tiles[Self::point_offset(pos)]
    }

    /// Current cursor position.
    pub fn cursor(&self) -> (r: Point)
        ensures
            r == self.cursor,
    {
        self.cursor
    }

    /// Place the cursor at `target`.
    pub fn move_cursor(&mut self, target: Point)
        requires
            old(self).wf(),
            in_bounds(target),
        ensures
            final(self).wf(),
            final(self).cursor == target,
            final(self).tiles@ == old(self).tiles@,
    {
        self.cursor = target;
    }

    /// Row-major index of the cursor tile.
    pub fn cursor_offset(&self) -> (r: usize)
        requires
            self.wf(),
        ensures
            r as int == idx(self.cursor),
            r < TILES,
    {
        Self::point_offset(self.cursor)
    }

    fn point_offset(point: Point) -> (r: usize)
        requires
            in_bounds(point),
        ensures
            r as int == idx(point),
            r < TILES,
    {
        point.x as usize + point.y as usize * WIDTH
    }
}

/// Enumerator over the on-board neighbors of an origin cell, in the fixed
/// compass order of `nbr_delta`.
pub struct Neighbors {
    pub origin: Point,
    pub next: usize,
}

impl Neighbors {
    /// Start enumerating the neighbors of `origin`.
    pub fn at(origin: Point) -> (r: Self)
        ensures
            r.origin == origin,
            r.next == 0,
    {
        Neighbors { origin, next: 0 }
    }

    /// The next on-board neighbor, if any slot is left.
    pub fn next(&mut self) -> (r: Option<Point>)
        requires
            in_bounds(old(self).origin),
            old(self).next <= 8,
        ensures
            final(self).origin == old(self).origin,
            old(self).next <= final(self).next <= 8,
            match r {
                Some(p) => {
                    &&& old(self).next < final(self).next
                    &&& p == nbr_point(old(self).origin, final(self).next - 1)
                    &&& in_bounds(p)
                    &&& forall|j: int|
                        old(self).next <= j < final(self).next - 1 ==> !in_bounds(
                            nbr_point(old(self).origin, j),
                        )
                },
                None => {
                    &&& final(self).next == 8
                    &&& forall|j: int|
                        old(self).next <= j < 8 ==> !in_bounds(nbr_point(old(self).origin, j))
                },
            },
    {
        loop
            invariant
                in_bounds(self.origin),
                self.origin == old(self).origin,
                old(self).next <= self.next <= 8,
                forall|j: int|
                    old(self).next <= j < self.next ==> !in_bounds(nbr_point(old(self).origin, j)),
            decreases 8 - self.next,
        {
            if self.next >= 8 {
                return None;
            }
            let (dx, dy): (i32, i32) = match self.next {
                0 => (-1, -1),
                1 => (-1, 0),
                2 => (-1, 1),
                3 => (0, 1),
                4 => (1, 1),
                5 => (1, 0),
                6 => (1, -1),
                _ => (0, -1),
            };
            self.next += 1;
            let x = self.origin.x + dx;
            let y = self.origin.y + dy;
            if x >= 0 && y >= 0 && x < WIDTH as i32 && y < HEIGHT as i32 {
                return Some(Point::new(x, y));
            }
        }
    }
}

} // verus!
