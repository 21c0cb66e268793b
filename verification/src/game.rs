//! The game engine: input dispatch, mine placement, flood reveal and the
//! win/loss state machine.

use vstd::prelude::*;
use crate::board::{
    Board, Tile, TileStatus, TileContent, Point, WIDTH, HEIGHT, TILES, in_bounds, idx, point_at,
    is_neighbor, nbr_point, mines_near, mines_near_upto, blank_grid, content_ok,
    lemma_idx_bounds, lemma_point_at_idx, lemma_idx_point_at, lemma_mines_near_upto_skip,
    lemma_mines_near_same_bombs, lemma_idx_injective, count_bombs, lemma_count_bombs_plant,
};
use crate::board::Neighbors;
use crate::flood::{
    tile_closed, zero_hint, flood_step, reach, revealed, opened_tile, open_result,
    lemma_reach_origin, lemma_revealed_step, count_closed, lemma_count_closed_open,
    lemma_reach_in_changed,
};

verus! {

/// A discrete input event.
#[derive(Copy, Clone, PartialEq, Eq, Structural, Debug)]
pub enum GameButton {
    DPad(Dir),
    A,
    B,
}

/// Direction of a cursor move.
#[derive(Copy, Clone, PartialEq, Eq, Structural, Debug)]
pub enum Dir {
    Up,
    Right,
    Down,
    Left,
}

/// High-level game state.
#[derive(Copy, Clone, PartialEq, Eq, Structural, Debug)]
pub enum GameStatus {
    Win,
    Bootstrap,
    Playing,
    GameOver,
}

/// Modulus of the multiplicative congruential generator.
pub const RNG_MODULUS: u32 = 0x7fff_ffff;

/// One step of the minimal-standard generator:
/// `state * 16807 mod (2^31 - 1)`.
pub open spec fn rng_step(s: u32) -> u32 {
    (((s as int) * 16807) % (RNG_MODULUS as int)) as u32
}

/// Iteration cap of the placement loop. The rejection loop that draws bomb
/// positions has no natural bound, so termination is made provable by
/// capping the draws at `TILES` times the generator's period: a run that
/// can finish at all finishes long before the cap, because a success-free
/// stretch longer than one period would repeat forever.
pub const PLACEMENT_FUEL: u64 = 96u64 * 0x8000_0000u64;

/// The placement loop, one candidate draw per unit of fuel: draw an x and a
/// y coordinate, plant a bomb when the cell holds none and is not under the
/// cursor, and stop once `need` bombs are planted or the fuel runs out.
/// Yields the grid, the generator state, and the bombs still unplanted.
pub open spec fn plant_rec(g: Seq<Tile>, cur: Point, seed: u32, need: nat, fuel: nat) -> (
    Seq<Tile>,
    u32,
    nat,
)
    decreases fuel,
{
    if need == 0 || fuel == 0 {
        (g, seed, need)
    } else {
        let s1 = rng_step(seed);
        let s2 = rng_step(s1);
        let p = Point {
            x: (s1 as int % (WIDTH as int)) as i32,
            y: (s2 as int % (HEIGHT as int)) as i32,
        };
        if !(g[idx(p)].content is Bomb) && p != cur {
            plant_rec(
                g.update(idx(p), Tile { status: g[idx(p)].status, content: TileContent::Bomb }),
                cur,
                s2,
                (need - 1) as nat,
                (fuel - 1) as nat,
            )
        } else {
            plant_rec(g, cur, s2, need, (fuel - 1) as nat)
        }
    }
}

/// Mine placement on a blank grid, as performed by a bootstrap.
pub open spec fn place_mines(cur: Point, seed: u32, bombs: nat) -> (Seq<Tile>, u32, nat) {
    plant_rec(blank_grid(), cur, seed, bombs, PLACEMENT_FUEL as nat)
}

/// Every non-bomb cell annotated with the count of its bomb neighbors.
pub open spec fn with_hints(g: Seq<Tile>) -> Seq<Tile> {
    Seq::new(
        g.len(),
        |i: int|
            if g[i].content is Bomb {
                g[i]
            } else {
                Tile {
                    status: g[i].status,
                    content: TileContent::Hint(mines_near(g, point_at(i)) as u8),
                }
            },
    )
}

/// The grid a bootstrap builds from the given cursor, seed and bomb count.
pub open spec fn boot_grid(cur: Point, seed: u32, bombs: nat) -> Seq<Tile> {
    with_hints(place_mines(cur, seed, bombs).0)
}

/// The generator state a bootstrap leaves behind.
pub open spec fn boot_seed(cur: Point, seed: u32, bombs: nat) -> u32 {
    place_mines(cur, seed, bombs).1
}

/// Bombs the placement could not fit under the fuel cap — zero for every
/// draw sequence that keeps making progress.
pub open spec fn boot_left(cur: Point, seed: u32, bombs: nat) -> nat {
    place_mines(cur, seed, bombs).2
}

/// What the placement loop guarantees, whatever the draws were: statuses
/// and the cursor cell are untouched, hints stay sane, and the bomb count
/// grows by exactly the bombs planted.
pub proof fn lemma_plant_rec_props(g: Seq<Tile>, cur: Point, seed: u32, need: nat, fuel: nat)
    requires
        g.len() == TILES as int,
        in_bounds(cur),
        !(g[idx(cur)].content is Bomb),
        forall|i: int| 0 <= i < TILES as int ==> content_ok((#[trigger] g[i]).content),
    ensures
        plant_rec(g, cur, seed, need, fuel).0.len() == TILES as int,
        plant_rec(g, cur, seed, need, fuel).2 <= need,
        count_bombs(plant_rec(g, cur, seed, need, fuel).0) == count_bombs(g) + need - plant_rec(
            g,
            cur,
            seed,
            need,
            fuel,
        ).2,
        forall|i: int|
            0 <= i < TILES as int ==> (#[trigger] plant_rec(g, cur, seed, need, fuel).0[i]).status
                == g[i].status,
        !(plant_rec(g, cur, seed, need, fuel).0[idx(cur)].content is Bomb),
        forall|i: int|
            0 <= i < TILES as int ==> content_ok(
                (#[trigger] plant_rec(g, cur, seed, need, fuel).0[i]).content,
            ),
    decreases fuel,
{
    if need == 0 || fuel == 0 {
    } else {
        let s1 = rng_step(seed);
        let s2 = rng_step(s1);
        let p = Point {
            x: (s1 as int % (WIDTH as int)) as i32,
            y: (s2 as int % (HEIGHT as int)) as i32,
        };
        assert(in_bounds(p));
        lemma_idx_bounds(p);
        if !(g[idx(p)].content is Bomb) && p != cur {
            let t = Tile { status: g[idx(p)].status, content: TileContent::Bomb };
            let g2 = g.update(idx(p), t);
            lemma_count_bombs_plant(g, idx(p), t);
            assert(idx(p) != idx(cur)) by {
                if idx(p) == idx(cur) {
                    lemma_idx_injective(p, cur);
                }
            }
            lemma_plant_rec_props(g2, cur, s2, (need - 1) as nat, (fuel - 1) as nat);
        } else {
            lemma_plant_rec_props(g, cur, s2, need, (fuel - 1) as nat);
        }
    }
}

/// Where the cursor ends up after one step in direction `d`, clamped to
/// the board.
pub open spec fn move_target(c: Point, d: Dir) -> Point {
    match d {
        Dir::Left => if c.x > 0 {
            Point { x: (c.x - 1) as i32, y: c.y }
        } else {
            c
        },
        Dir::Right => if c.x + 1 < WIDTH as i32 {
            Point { x: (c.x + 1) as i32, y: c.y }
        } else {
            c
        },
        Dir::Up => if c.y > 0 {
            Point { x: c.x, y: (c.y - 1) as i32 }
        } else {
            c
        },
        Dir::Down => if c.y + 1 < HEIGHT as i32 {
            Point { x: c.x, y: (c.y + 1) as i32 }
        } else {
            c
        },
    }
}

/// The grid after a flag toggle at `c`: closed becomes flagged, flagged
/// becomes closed, an opened tile is left alone.
pub open spec fn toggle_result(g: Seq<Tile>, c: Point) -> Seq<Tile> {
    if g[idx(c)].status is Closed {
        g.update(idx(c), Tile { status: TileStatus::Flagged, content: g[idx(c)].content })
    } else if g[idx(c)].status is Flagged {
        g.update(idx(c), Tile { status: TileStatus::Closed, content: g[idx(c)].content })
    } else {
        g
    }
}

/// A bomb has been opened somewhere on the grid.
pub open spec fn any_opened_bomb(g: Seq<Tile>) -> bool {
    exists|i: int|
        0 <= i < g.len() && (#[trigger] g[i]).status is Opened && g[i].content is Bomb
}

/// Every tile is either a flagged bomb or opened: the board is cleared.
pub open spec fn all_cleared(g: Seq<Tile>) -> bool {
    forall|i: int|
        0 <= i < g.len() ==> ((#[trigger] g[i]).status is Flagged && g[i].content is Bomb)
            || g[i].status is Opened
}

/// Status after one win/loss scan: a loss overrides everything, then a win,
/// otherwise the status is unchanged.
pub open spec fn refresh_status(g: Seq<Tile>, st: GameStatus) -> GameStatus {
    if any_opened_bomb(g) {
        GameStatus::GameOver
    } else if all_cleared(g) {
        GameStatus::Win
    } else {
        st
    }
}

/// After dropping the last element, anything the sequence held is either
/// still there or was exactly that last element.
proof fn lemma_contains_after_pop(s: Seq<Point>, b: Point)
    requires
        s.len() > 0,
        s.contains(b),
    ensures
        s.drop_last().contains(b) || b == s.last(),
{
    let j = choose|j: int| 0 <= j < s.len() && s[j] == b;
    if j < s.len() - 1 {
        assert(s.drop_last()[j] == b);
    }
}

/// The minesweeper engine: one board, the high-level status, the configured
/// bomb count and the generator state.
pub struct Minesweeper {
    pub board: Board,
    pub status: GameStatus,
    pub bombs: usize,
    pub rng_seed: u32,
}

impl Minesweeper {
    /// Structural invariant of the whole engine.
    pub open spec fn wf(&self) -> bool {
        &&& self.board.wf()
        &&& self.bombs < TILES
        &&& self.rng_seed < RNG_MODULUS
    }

    /// A fresh game: blank board, centered cursor, default seed, waiting for
    /// the first confirm to place the mines. The bomb count must leave at
    /// least one free cell.
    pub fn new(bombs: usize) -> (r: Self)
        requires
            bombs < TILES,
        ensures
            r.wf(),
            r.board.tiles@ == blank_grid(),
            r.board.cursor == (Point { x: 8, y: 3 }),
            r.status == GameStatus::Bootstrap,
            r.bombs == bombs,
            r.rng_seed == 42,
    {
        Minesweeper {
            bombs,
            board: Board::new(),
            status: GameStatus::Bootstrap,
            rng_seed: 42,
        }
    }

    /// Store an external entropy snapshot, reduced into the generator's
    /// range. Leaves everything else untouched.
    pub fn seed_random(&mut self, seed: u32)
        requires
            old(self).wf(),
        ensures
            final(self).wf(),
            final(self).rng_seed == seed % RNG_MODULUS,
            final(self).board == old(self).board,
            final(self).status == old(self).status,
            final(self).bombs == old(self).bombs,
    {
        self.rng_seed = seed % RNG_MODULUS;
    }

    /// Advance the generator one step and draw a value below `up_to`.
    fn gen_random(&mut self, up_to: u16) -> (r: i32)
        requires
            old(self).wf(),
            0 < up_to,
        ensures
            final(self).wf(),
            final(self).rng_seed == rng_step(old(self).rng_seed),
            r == final(self).rng_seed as int % up_to as int,
            0 <= r < up_to,
            final(self).board == old(self).board,
            final(self).status == old(self).status,
            final(self).bombs == old(self).bombs,
    {
        let stepped: u64 = self.rng_seed as u64 * 16807 % RNG_MODULUS as u64;
        self.rng_seed = stepped as u32;
        (self.rng_seed % up_to as u32) as i32
    }

    /// Scan the grid once and update the status: `GameOver` if any bomb is
    /// opened, else `Win` if the board is cleared, else unchanged.
    pub fn refresh_game_state(&mut self)
        requires
            old(self).wf(),
        ensures
            final(self).wf(),
            final(self).board == old(self).board,
            final(self).bombs == old(self).bombs,
            final(self).rng_seed == old(self).rng_seed,
            final(self).status == refresh_status(old(self).board.tiles@, old(self).status),
    {
        let tiles = self.board.tiles();
        let mut i: usize = 0;
        let mut lost = false;
        while i < TILES
            invariant
                i <= TILES,
                tiles@ == old(self).board.tiles@,
                tiles@.len() == TILES as int,
                lost == exists|j: int|
                    0 <= j < i as int && (#[trigger] tiles@[j]).status is Opened
                        && tiles@[j].content is Bomb,
            decreases TILES - i,
        {
            let t = tiles[i];
            if matches!(t.status, TileStatus::Opened) && matches!(t.content, TileContent::Bomb) {
                lost = true;
            }
            i += 1;
        }
        if lost {
            self.status = GameStatus::GameOver;
            return ;
        }
        let mut i: usize = 0;
        let mut cleared = true;
        while i < TILES
            invariant
                i <= TILES,
                tiles@ == old(self).board.tiles@,
                tiles@.len() == TILES as int,
                cleared == forall|j: int|
                    0 <= j < i as int ==> ((#[trigger] tiles@[j]).status is Flagged
                        && tiles@[j].content is Bomb) || tiles@[j].status is Opened,
            decreases TILES - i,
        {
            let t = tiles[i];
            let ok = match (t.status, t.content) {
                (TileStatus::Flagged, TileContent::Bomb) => true,
                (TileStatus::Opened, _) => true,
                _ => false,
            };
            if !ok {
                cleared = false;
            }
            i += 1;
        }
        if cleared {
            self.status = GameStatus::Win;
        }
    }

    /// The single input entry point. `A` confirms: it bootstraps on the
    /// first confirm or after a finished game, and otherwise opens the
    /// cursor tile and re-evaluates win/loss. `B` toggles the cursor tile's
    /// flag and re-evaluates. A direction pad event steps the cursor,
    /// clamped to the board.
    pub fn button_click(&mut self, button: GameButton)
        requires
            old(self).wf(),
        ensures
            final(self).wf(),
            final(self).bombs == old(self).bombs,
            match button {
                GameButton::DPad(d) => {
                    &&& final(self).board.cursor == move_target(old(self).board.cursor, d)
                    &&& final(self).board.tiles@ == old(self).board.tiles@
                    &&& final(self).status == old(self).status
                    &&& final(self).rng_seed == old(self).rng_seed
                },
                GameButton::B => {
                    &&& final(self).board.cursor == old(self).board.cursor
                    &&& final(self).rng_seed == old(self).rng_seed
                    &&& final(self).board.tiles@ == toggle_result(
                        old(self).board.tiles@,
                        old(self).board.cursor,
                    )
                    &&& final(self).status == refresh_status(
                        final(self).board.tiles@,
                        old(self).status,
                    )
                },
                GameButton::A => match old(self).status {
                    GameStatus::Playing => {
                        &&& final(self).board.cursor == old(self).board.cursor
                        &&& final(self).rng_seed == old(self).rng_seed
                        &&& final(self).board.tiles@ == open_result(
                            old(self).board.tiles@,
                            old(self).board.cursor,
                        )
                        &&& final(self).status == refresh_status(
                            final(self).board.tiles@,
                            GameStatus::Playing,
                        )
                    },
                    GameStatus::Bootstrap => {
                        &&& final(self).board.cursor == old(self).board.cursor
                        &&& final(self).rng_seed == boot_seed(
                            old(self).board.cursor,
                            old(self).rng_seed,
                            old(self).bombs as nat,
                        )
                        &&& final(self).board.tiles@ == open_result(
                            boot_grid(
                                old(self).board.cursor,
                                old(self).rng_seed,
                                old(self).bombs as nat,
                            ),
                            old(self).board.cursor,
                        )
                        &&& final(self).status == GameStatus::Playing
                    },
                    _ => {
                        &&& final(self).board.cursor == old(self).board.cursor
                        &&& final(self).rng_seed == boot_seed(
                            old(self).board.cursor,
                            old(self).rng_seed,
                            old(self).bombs as nat,
                        )
                        &&& final(self).board.tiles@ == boot_grid(
                            old(self).board.cursor,
                            old(self).rng_seed,
                            old(self).bombs as nat,
                        )
                        &&& final(self).status == GameStatus::Playing
                    },
                },
            },
    {
        let mut cursor = self.board.cursor();
        match button {
            GameButton::A => match self.status {
                GameStatus::Bootstrap => {
                    self.bootstrap();
                    self.open_tile(cursor);
                },
                GameStatus::Playing => {
                    self.open_tile(cursor);
                    self.refresh_game_state();
                },
                _ => {
                    self.bootstrap();
                },
            },
            GameButton::B => {
                match self.board.tile_at(cursor).status() {
                    TileStatus::Closed => self.board.set_status_at(cursor, TileStatus::Flagged),
                    TileStatus::Flagged => self.board.set_status_at(cursor, TileStatus::Closed),
                    _ => {},
                }
                self.refresh_game_state();
            },
            GameButton::DPad(dir) => {
                match dir {
                    Dir::Left => if cursor.x > 0 {
                        cursor = Point::new(cursor.x - 1, cursor.y);
                    },
                    Dir::Right => if cursor.x + 1 < WIDTH as i32 {
                        cursor = Point::new(cursor.x + 1, cursor.y);
                    },
                    Dir::Up => if cursor.y > 0 {
                        cursor = Point::new(cursor.x, cursor.y - 1);
                    },
                    Dir::Down => if cursor.y + 1 < HEIGHT as i32 {
                        cursor = Point::new(cursor.x, cursor.y + 1);
                    },
                }
                self.board.move_cursor(cursor);
            },
        }
    }

    /// Restart the board: blank every tile, draw bomb positions from the
    /// generator until `bombs` are planted (skipping occupied cells and the
    /// cursor cell), write every non-bomb cell's hint, and enter `Playing`.
    /// The result is a pure function of cursor, seed and bomb count.
    pub fn bootstrap(&mut self)
        requires
            old(self).wf(),
        ensures
            final(self).wf(),
            final(self).board.cursor == old(self).board.cursor,
            final(self).bombs == old(self).bombs,
            final(self).status == GameStatus::Playing,
            final(self).board.tiles@ == boot_grid(
                old(self).board.cursor,
                old(self).rng_seed,
                old(self).bombs as nat,
            ),
            final(self).rng_seed == boot_seed(
                old(self).board.cursor,
                old(self).rng_seed,
                old(self).bombs as nat,
            ),
    {
        self.board.reset();
        let ghost cur0 = self.board.cursor;
        let ghost s0 = self.rng_seed;
        let ghost bombs0 = self.bombs as nat;
        let mut planted: usize = 0;
        let mut fuel: u64 = PLACEMENT_FUEL;
        while planted < self.bombs && fuel > 0
            invariant
                self.wf(),
                self.board.cursor == cur0,
                cur0 == old(self).board.cursor,
                self.bombs == old(self).bombs,
                self.status == old(self).status,
                s0 == old(self).rng_seed,
                bombs0 == old(self).bombs as nat,
                planted <= self.bombs,
                plant_rec(blank_grid(), cur0, s0, bombs0, PLACEMENT_FUEL as nat) == plant_rec(
                    self.board.tiles@,
                    cur0,
                    self.rng_seed,
                    (self.bombs - planted) as nat,
                    fuel as nat,
                ),
            decreases fuel,
        {
            let ghost g_iter = self.board.tiles@;
            let ghost seed_iter = self.rng_seed;
            let ghost need_iter = (self.bombs - planted) as nat;
            let ghost fuel_iter = fuel as nat;
            let x = self.gen_random(16);
            let y = self.gen_random(6);
            let pos = Point::new(x, y);
            proof {
                lemma_idx_bounds(pos);
            }
            let free = match self.board.tile_at(pos).content() {
                TileContent::Hint(_) => true,
                TileContent::Bomb => false,
            };
            if free && !(pos.x == self.board.cursor().x && pos.y == self.board.cursor().y) {
                self.board.set_content_at(pos, TileContent::Bomb);
                planted += 1;
            }
            fuel -= 1;
            proof {
                assert(plant_rec(g_iter, cur0, seed_iter, need_iter, fuel_iter) == plant_rec(
                    self.board.tiles@,
                    cur0,
                    self.rng_seed,
                    (self.bombs - planted) as nat,
                    fuel as nat,
                ));
            }
        }
        let ghost mid = self.board.tiles@;
        proof {
            assert(place_mines(cur0, s0, bombs0) == (mid, self.rng_seed, (self.bombs
                - planted) as nat));
        }
        let mut x: usize = 0;
        while x < WIDTH
            invariant
                self.wf(),
                self.board.cursor == cur0,
                cur0 == old(self).board.cursor,
                self.bombs == old(self).bombs,
                self.status == old(self).status,
                self.rng_seed == place_mines(cur0, s0, bombs0).1,
                s0 == old(self).rng_seed,
                bombs0 == old(self).bombs as nat,
                mid == place_mines(cur0, s0, bombs0).0,
                mid.len() == TILES as int,
                x <= WIDTH,
                forall|i: int|
                    0 <= i < TILES as int ==> ((#[trigger] self.board.tiles@[i]).content is Bomb
                        <==> mid[i].content is Bomb),
                forall|p: Point|
                    in_bounds(p) && p.x < x as i32 ==> #[trigger] self.board.tiles@[idx(p)]
                        == with_hints(mid)[idx(p)],
                forall|p: Point|
                    in_bounds(p) && p.x >= x as i32 ==> #[trigger] self.board.tiles@[idx(p)]
                        == mid[idx(p)],
            decreases WIDTH - x,
        {
            let mut y: usize = 0;
            while y < HEIGHT
                invariant
                    self.wf(),
                    self.board.cursor == cur0,
                    cur0 == old(self).board.cursor,
                    self.bombs == old(self).bombs,
                    self.status == old(self).status,
                    self.rng_seed == place_mines(cur0, s0, bombs0).1,
                    s0 == old(self).rng_seed,
                    bombs0 == old(self).bombs as nat,
                    mid == place_mines(cur0, s0, bombs0).0,
                    mid.len() == TILES as int,
                    x < WIDTH,
                    y <= HEIGHT,
                    forall|i: int|
                        0 <= i < TILES as int ==> ((#[trigger] self.board.tiles@[i]).content
                            is Bomb <==> mid[i].content is Bomb),
                    forall|p: Point|
                        in_bounds(p) && (p.x < x as i32 || (p.x == x as i32 && p.y < y as i32))
                            ==> #[trigger] self.board.tiles@[idx(p)] == with_hints(mid)[idx(p)],
                    forall|p: Point|
                        in_bounds(p) && (p.x > x as i32 || (p.x == x as i32 && p.y >= y as i32))
                            ==> #[trigger] self.board.tiles@[idx(p)] == mid[idx(p)],
                decreases HEIGHT - y,
            {
                let pos = Point::new(x as i32, y as i32);
                proof {
                    lemma_idx_bounds(pos);
                    lemma_point_at_idx(pos);
                }
                let t = self.board.tile_at(pos);
                if matches!(t.content, TileContent::Bomb) {
                    proof {
                        assert(self.board.tiles@[idx(pos)] == with_hints(mid)[idx(pos)]);
                    }
                } else {
                    let ghost g_count = self.board.tiles@;
                    let mut count: u8 = 0;
                    let mut it = Neighbors::at(pos);
                    while it.next < 8
                        invariant
                            self.wf(),
                            self.board.tiles@ == g_count,
                            g_count.len() == TILES as int,
                            in_bounds(pos),
                            it.origin == pos,
                            it.next <= 8,
                            count == mines_near_upto(g_count, pos, it.next as int),
                            count <= it.next,
                        decreases 8 - it.next,
                    {
                        let ghost next_pre = it.next as int;
                        match it.next() {
                            Some(q) => {
                                proof {
                                    lemma_idx_bounds(q);
                                    lemma_mines_near_upto_skip(
                                        g_count,
                                        pos,
                                        next_pre,
                                        it.next as int - 1,
                                    );
                                }
                                let qt = self.board.tile_at(q);
                                if matches!(qt.content, TileContent::Bomb) {
                                    count += 1;
                                }
                            },
                            None => {
                                proof {
                                    lemma_mines_near_upto_skip(g_count, pos, next_pre, 8);
                                }
                            },
                        }
                    }
                    proof {
                        lemma_mines_near_same_bombs(g_count, mid, pos, 8);
                        assert(count == mines_near(mid, pos));
                    }
                    self.board.set_content_at(pos, TileContent::Hint(count));
                    proof {
                        assert(self.board.tiles@[idx(pos)] == with_hints(mid)[idx(pos)]);
                        assert forall|p: Point|
                            in_bounds(p) && (p.x < x as i32 || (p.x == x as i32 && p.y < y as i32
                                + 1)) implies #[trigger] self.board.tiles@[idx(p)] == with_hints(
                            mid,
                        )[idx(p)] by {
                            lemma_idx_bounds(p);
                            if p != pos {
                                if idx(p) == idx(pos) {
                                    lemma_idx_injective(p, pos);
                                }
                            }
                        }
                        assert forall|p: Point|
                            in_bounds(p) && (p.x > x as i32 || (p.x == x as i32 && p.y >= y as i32
                                + 1)) implies #[trigger] self.board.tiles@[idx(p)] == mid[idx(
                            p,
                        )] by {
                            lemma_idx_bounds(p);
                            if idx(p) == idx(pos) {
                                lemma_idx_injective(p, pos);
                            }
                        }
                    }
                }
                y += 1;
            }
            x += 1;
        }
        proof {
            assert forall|i: int| 0 <= i < TILES as int implies self.board.tiles@[i] == with_hints(
                mid,
            )[i] by {
                lemma_idx_point_at(i);
            }
            assert(self.board.tiles@ =~= with_hints(mid));
        }
        self.status = GameStatus::Playing;
    }

    /// Reveal the tile at `origin`. A closed zero-hint tile floods open its
    /// whole contiguous zero-hint region and the closed tiles bordering it;
    /// any other closed tile is opened alone; anything else is a no-op. The
    /// result is exactly `open_result` of the grid before the call.
    pub fn open_tile(&mut self, origin: Point)
        requires
            old(self).wf(),
            in_bounds(origin),
        ensures
            final(self).wf(),
            final(self).board.tiles@ == open_result(old(self).board.tiles@, origin),
            final(self).board.cursor == old(self).board.cursor,
            final(self).status == old(self).status,
            final(self).bombs == old(self).bombs,
            final(self).rng_seed == old(self).rng_seed,
    {
        let ghost g0 = old(self).board.tiles@;
        let mut stack: Vec<Point> = Vec::new();
        stack.push(origin);
        proof {
            assert(stack@[0] == origin);
        }
        while stack.len() > 0
            invariant
                self.wf(),
                self.board.cursor == old(self).board.cursor,
                self.status == old(self).status,
                self.bombs == old(self).bombs,
                self.rng_seed == old(self).rng_seed,
                g0 == old(self).board.tiles@,
                g0.len() == TILES as int,
                in_bounds(origin),
                forall|i: int|
                    0 <= i < TILES as int ==> (#[trigger] self.board.tiles@[i]).content
                        == g0[i].content,
                forall|i: int|
                    0 <= i < TILES as int ==> (#[trigger] self.board.tiles@[i]) == g0[i] || (
                    g0[i].status is Closed && self.board.tiles@[i] == opened_tile(g0[i])),
                forall|i: int|
                    0 <= i < TILES as int && (#[trigger] self.board.tiles@[i]) != g0[i]
                        ==> revealed(g0, origin, point_at(i)),
                forall|j: int| 0 <= j < stack@.len() ==> in_bounds(#[trigger] stack@[j]),
                forall|j: int|
                    0 <= j < stack@.len() ==> (#[trigger] stack@[j]) == origin || exists|q: Point|
                        revealed(g0, origin, q) && tile_closed(g0, q) && zero_hint(g0, q)
                            && in_bounds(q) && #[trigger] is_neighbor(q, stack@[j]),
                forall|a: Point, b: Point|
                    #[trigger] flood_step(g0, a, b) && self.board.tiles@[idx(a)] != g0[idx(a)]
                        ==> self.board.tiles@[idx(b)] != g0[idx(b)] || stack@.contains(b),
                self.board.tiles@[idx(origin)] != g0[idx(origin)] || stack@.contains(origin)
                    || !tile_closed(g0, origin),
            decreases 9 * count_closed(self.board.tiles@) + stack@.len(),
        {
            let ghost pre_stack = stack@;
            let ghost g_pre = self.board.tiles@;
            let p = stack.pop().unwrap();
            proof {
                lemma_idx_bounds(p);
            }
            let t = self.board.tile_at(p);
            if matches!(t.status, TileStatus::Closed) {
                proof {
                    assert(g_pre[idx(p)] == g0[idx(p)]);
                    if p == origin {
                        assert(reach(g0, origin, origin, 0));
                        assert(revealed(g0, origin, origin));
                    } else {
                        let q = choose|q: Point|
                            revealed(g0, origin, q) && tile_closed(g0, q) && zero_hint(g0, q)
                                && in_bounds(q) && is_neighbor(q, p);
                        assert(flood_step(g0, q, p));
                        lemma_revealed_step(g0, origin, q, p);
                    }
                    assert(revealed(g0, origin, p));
                    lemma_point_at_idx(p);
                }
                self.board.set_status_at(p, TileStatus::Opened);
                proof {
                    lemma_count_closed_open(
                        g_pre,
                        idx(p),
                        Tile { status: TileStatus::Opened, content: g_pre[idx(p)].content },
                    );
                    assert(self.board.tiles@[idx(p)] != g0[idx(p)]);
                    // frontier, away from the freshly opened tile
                    assert forall|a: Point, b: Point|
                        #[trigger] flood_step(g0, a, b) && self.board.tiles@[idx(a)] != g0[idx(a)]
                            && a != p implies self.board.tiles@[idx(b)] != g0[idx(b)]
                        || stack@.contains(b) by {
                        lemma_idx_bounds(a);
                        lemma_idx_bounds(b);
                        if g_pre[idx(a)] != g0[idx(a)] {
                            if g_pre[idx(b)] != g0[idx(b)] {
                                assert(self.board.tiles@[idx(b)] != g0[idx(b)]);
                            } else {
                                assert(pre_stack.contains(b));
                                lemma_contains_after_pop(pre_stack, b);
                                if b == p {
                                    assert(self.board.tiles@[idx(b)] != g0[idx(b)]);
                                } else {
                                    assert(stack@.contains(b));
                                }
                            }
                        } else {
                            lemma_idx_injective(a, p);
                        }
                    }
                    // the origin stays covered
                    if self.board.tiles@[idx(origin)] == g0[idx(origin)] && tile_closed(g0, origin)
                        && origin != p {
                        lemma_idx_bounds(origin);
                        if idx(origin) == idx(p) {
                            lemma_idx_injective(origin, p);
                        }
                        assert(g_pre[idx(origin)] == g0[idx(origin)]);
                        assert(pre_stack.contains(origin));
                        lemma_contains_after_pop(pre_stack, origin);
                        assert(stack@.contains(origin));
                    }
                }
                if matches!(t.content, TileContent::Hint(0)) {
                    let ghost g_opened = self.board.tiles@;
                    let ghost base_len = stack@.len();
                    let mut it = Neighbors::at(p);
                    while it.next < 8
                        invariant
                            self.wf(),
                            self.board.cursor == old(self).board.cursor,
                            self.status == old(self).status,
                            self.bombs == old(self).bombs,
                            self.rng_seed == old(self).rng_seed,
                            g0 == old(self).board.tiles@,
                            g0.len() == TILES as int,
                            in_bounds(origin),
                            in_bounds(p),
                            it.origin == p,
                            it.next <= 8,
                            self.board.tiles@ == g_opened,
                            revealed(g0, origin, p),
                            tile_closed(g0, p),
                            zero_hint(g0, p),
                            self.board.tiles@[idx(p)] != g0[idx(p)],
                            stack@.len() <= base_len + it.next as int,
                            forall|k: int|
                                0 <= k < it.next as int && in_bounds(nbr_point(p, k))
                                    ==> stack@.contains(nbr_point(p, k)),
                            forall|i: int|
                                0 <= i < TILES as int ==> (#[trigger] self.board.tiles@[i]).content
                                    == g0[i].content,
                            forall|i: int|
                                0 <= i < TILES as int ==> (#[trigger] self.board.tiles@[i])
                                    == g0[i] || (g0[i].status is Closed && self.board.tiles@[i]
                                    == opened_tile(g0[i])),
                            forall|i: int|
                                0 <= i < TILES as int && (#[trigger] self.board.tiles@[i]) != g0[i]
                                    ==> revealed(g0, origin, point_at(i)),
                            forall|j: int| 0 <= j < stack@.len() ==> in_bounds(#[trigger] stack@[j]),
                            forall|j: int|
                                0 <= j < stack@.len() ==> (#[trigger] stack@[j]) == origin || exists|
                                    q: Point,
                                |
                                    revealed(g0, origin, q) && tile_closed(g0, q) && zero_hint(
                                        g0,
                                        q,
                                    ) && in_bounds(q) && #[trigger] is_neighbor(q, stack@[j]),
                            forall|a: Point, b: Point|
                                #[trigger] flood_step(g0, a, b) && self.board.tiles@[idx(a)]
                                    != g0[idx(a)] && a != p ==> self.board.tiles@[idx(b)]
                                    != g0[idx(b)] || stack@.contains(b),
                            self.board.tiles@[idx(origin)] != g0[idx(origin)] || stack@.contains(
                                origin,
                            ) || !tile_closed(g0, origin),
                        decreases 8 - it.next,
                    {
                        let ghost stack_before = stack@;
                        match it.next() {
                            Some(q) => {
                                stack.push(q);
                                proof {
                                    assert(stack@ == stack_before.push(q));
                                    assert(is_neighbor(p, q)) by {
                                        assert(0 <= it.next - 1 < 8 && q == nbr_point(
                                            p,
                                            it.next - 1,
                                        ) && in_bounds(q));
                                    }
                                    assert forall|b: Point| stack_before.contains(b) implies stack@
                                        .contains(b) by {
                                        let j = choose|j: int|
                                            0 <= j < stack_before.len() && stack_before[j] == b;
                                        assert(stack@[j] == b);
                                    }
                                    assert forall|k: int|
                                        0 <= k < it.next as int && in_bounds(
                                            nbr_point(p, k),
                                        ) implies stack@.contains(nbr_point(p, k)) by {
                                        if k == it.next - 1 {
                                            assert(stack@[stack@.len() - 1] == q);
                                        }
                                    }
                                }
                            },
                            None => {
                            },
                        }
                    }
                    proof {
                        assert forall|a: Point, b: Point|
                            #[trigger] flood_step(g0, a, b) && self.board.tiles@[idx(a)]
                                != g0[idx(a)] implies self.board.tiles@[idx(b)] != g0[idx(b)]
                            || stack@.contains(b) by {
                            if a == p {
                                let k = choose|k: int|
                                    0 <= k < 8 && b == nbr_point(a, k) && in_bounds(b);
                                assert(stack@.contains(nbr_point(p, k)));
                            }
                        }
                        assert(stack@.len() <= pre_stack.len() - 1 + 8);
                        assert(9 * count_closed(self.board.tiles@) + stack@.len() < 9
                            * count_closed(g_pre) + pre_stack.len());
                    }
                } else {
                    proof {
                        assert(!zero_hint(g0, p));
                        assert forall|a: Point, b: Point|
                            #[trigger] flood_step(g0, a, b) && self.board.tiles@[idx(a)]
                                != g0[idx(a)] implies self.board.tiles@[idx(b)] != g0[idx(b)]
                            || stack@.contains(b) by {
                            if a == p {
                                assert(false);
                            }
                        }
                    }
                }
            } else {
                proof {
                    assert forall|a: Point, b: Point|
                        #[trigger] flood_step(g0, a, b) && self.board.tiles@[idx(a)]
                            != g0[idx(a)] implies self.board.tiles@[idx(b)] != g0[idx(b)]
                        || stack@.contains(b) by {
                        if self.board.tiles@[idx(b)] == g0[idx(b)] {
                            assert(pre_stack.contains(b));
                            lemma_contains_after_pop(pre_stack, b);
                            if b == p {
                                assert(tile_closed(g0, b));
                                assert(false);
                            }
                            assert(stack@.contains(b));
                        }
                    }
                    if self.board.tiles@[idx(origin)] == g0[idx(origin)] && tile_closed(g0, origin)
                        && !stack@.contains(origin) {
                        assert(pre_stack.contains(origin));
                        lemma_contains_after_pop(pre_stack, origin);
                        assert(origin == p);
                        assert(false);
                    }
                }
            }
        }
        proof {
            let gf = self.board.tiles@;
            assert forall|i: int| 0 <= i < TILES as int implies gf[i] == open_result(g0, origin)[i]
                by {
                lemma_idx_point_at(i);
                let pt = point_at(i);
                if revealed(g0, origin, pt) {
                    let n = choose|n: nat| reach(g0, origin, pt, n);
                    lemma_reach_origin(g0, origin, pt, n);
                    lemma_idx_bounds(origin);
                    assert(!stack@.contains(origin));
                    assert(gf[idx(origin)] != g0[idx(origin)]);
                    assert forall|a: Point, b: Point|
                        #[trigger] flood_step(g0, a, b) && gf[idx(a)] != g0[idx(a)] implies gf[idx(
                        b,
                    )] != g0[idx(b)] by {
                        assert(!stack@.contains(b));
                    }
                    lemma_reach_in_changed(g0, origin, gf, pt, n);
                    assert(gf[i] == opened_tile(g0[i]));
                } else {
                    assert(gf[i] == g0[i]);
                }
            }
            assert(self.board.tiles@ =~= open_result(g0, origin));
        }
    }
}

} // verus!
