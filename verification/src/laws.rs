//! Engine-wide laws: properties that relate several operations, proved
//! once and for all over the specification functions the operations'
//! contracts are stated with.

use vstd::prelude::*;
use crate::board::{
    Tile, TileContent, Point, TILES, in_bounds, idx, point_at, mines_near, blank_grid,
    blank_tile, content_ok, count_bombs, lemma_count_bombs_none, lemma_count_bombs_same,
    lemma_mines_near_same_bombs, lemma_mines_near_upto_bound, lemma_idx_bounds,
    lemma_point_at_idx, lemma_idx_point_at,
};
use crate::game::{
    Minesweeper, Dir, GameStatus, move_target, boot_grid, boot_seed, boot_left, place_mines,
    any_opened_bomb, all_cleared, refresh_status, lemma_plant_rec_props, PLACEMENT_FUEL,
};

verus! {

/// Whenever the placement runs to completion, a bootstrapped grid holds
/// exactly `bombs` bombs, never under the cursor, every tile is closed,
/// and every non-bomb tile's hint equals the count of its on-board bomb
/// neighbors.
pub proof fn lemma_bootstrap_mines(cur: Point, seed: u32, bombs: nat)
    requires
        in_bounds(cur),
        bombs < TILES as nat,
        boot_left(cur, seed, bombs) == 0,
    ensures
        boot_grid(cur, seed, bombs).len() == TILES as int,
        count_bombs(boot_grid(cur, seed, bombs)) == bombs,
        !(boot_grid(cur, seed, bombs)[idx(cur)].content is Bomb),
        forall|i: int|
            0 <= i < TILES as int ==> (#[trigger] boot_grid(cur, seed, bombs)[i]).status
                is Closed,
        forall|p: Point|
            in_bounds(p) && !(boot_grid(cur, seed, bombs)[idx(p)].content is Bomb)
                ==> #[trigger] boot_grid(cur, seed, bombs)[idx(p)].content == TileContent::Hint(
                mines_near(boot_grid(cur, seed, bombs), p) as u8,
            ),
        forall|i: int|
            0 <= i < TILES as int ==> content_ok(
                (#[trigger] boot_grid(cur, seed, bombs)[i]).content,
            ),
{
    let blank = blank_grid();
    assert(forall|i: int| 0 <= i < TILES as int ==> #[trigger] blank[i] == blank_tile());
    lemma_idx_bounds(cur);
    lemma_count_bombs_none(blank, TILES as int);
    lemma_plant_rec_props(blank, cur, seed, bombs, PLACEMENT_FUEL as nat);
    let placed = place_mines(cur, seed, bombs).0;
    let boot = boot_grid(cur, seed, bombs);
    assert(count_bombs(placed) == bombs);
    // annotation with hints moves no bomb
    assert(forall|i: int|
        0 <= i < TILES as int ==> ((#[trigger] boot[i]).content is Bomb <==> (
        #[trigger] placed[i]).content is Bomb));
    lemma_count_bombs_same(boot, placed, TILES as int);
    assert forall|p: Point|
        in_bounds(p) && !(boot[idx(p)].content is Bomb) implies #[trigger] boot[idx(p)].content
        == TileContent::Hint(mines_near(boot, p) as u8) by {
        lemma_idx_bounds(p);
        lemma_point_at_idx(p);
        lemma_mines_near_same_bombs(placed, boot, p, 8);
    }
    // a computed hint can never exceed the eight neighbor slots
    assert forall|i: int| 0 <= i < TILES as int implies content_ok(
        (#[trigger] boot[i]).content,
    ) by {
        lemma_idx_point_at(i);
        lemma_mines_near_upto_bound(placed, point_at(i), 8);
    }
}

/// Mine placement is a function of the seed, the cursor and the bomb count
/// alone: two games that agree on those three draw identical boards and end
/// with identical generator states, however the rest of their state
/// differs. Together with `bootstrap`'s contract this makes placement
/// bit-for-bit reproducible.
pub proof fn lemma_bootstrap_deterministic(a: Minesweeper, b: Minesweeper)
    requires
        a.board.cursor == b.board.cursor,
        a.rng_seed == b.rng_seed,
        a.bombs == b.bombs,
    ensures
        boot_grid(a.board.cursor, a.rng_seed, a.bombs as nat) == boot_grid(
            b.board.cursor,
            b.rng_seed,
            b.bombs as nat,
        ),
        boot_seed(a.board.cursor, a.rng_seed, a.bombs as nat) == boot_seed(
            b.board.cursor,
            b.rng_seed,
            b.bombs as nat,
        ),
{
}

/// Every tile is either a flagged bomb or an opened non-bomb: the exact
/// shape of a won board.
pub open spec fn board_cleared(g: Seq<Tile>) -> bool {
    forall|i: int|
        0 <= i < g.len() ==> (((#[trigger] g[i]).status is Flagged && g[i].content is Bomb) || (
        g[i].status is Opened && !(g[i].content is Bomb)))
}

/// The verdict of one win/loss scan: a loss is declared iff some bomb is
/// opened — checked first — a win iff every tile is a flagged bomb or an
/// opened non-bomb, and otherwise the status is left alone.
pub proof fn lemma_refresh_verdict(g: Seq<Tile>, st: GameStatus)
    ensures
        refresh_status(g, st) == if any_opened_bomb(g) {
            GameStatus::GameOver
        } else if board_cleared(g) {
            GameStatus::Win
        } else {
            st
        },
{
    if !any_opened_bomb(g) {
        assert(all_cleared(g) <==> board_cleared(g));
    }
}

/// A cursor that starts on the board stays on the board, whatever sequence
/// of moves is applied.
pub open spec fn moves_applied(c: Point, ds: Seq<Dir>) -> Point
    decreases ds.len(),
{
    if ds.len() == 0 {
        c
    } else {
        moves_applied(move_target(c, ds[0]), ds.drop_first())
    }
}

/// One clamped step never leaves the board.
pub proof fn lemma_move_in_bounds(c: Point, d: Dir)
    requires
        in_bounds(c),
    ensures
        in_bounds(move_target(c, d)),
{
}

/// However many moves are applied — in one direction or any other — the
/// cursor remains within the board.
pub proof fn lemma_moves_stay_in_bounds(c: Point, ds: Seq<Dir>)
    requires
        in_bounds(c),
    ensures
        in_bounds(moves_applied(c, ds)),
    decreases ds.len(),
{
    if ds.len() > 0 {
        lemma_move_in_bounds(c, ds[0]);
        lemma_moves_stay_in_bounds(move_target(c, ds[0]), ds.drop_first());
    }
}

} // verus!
