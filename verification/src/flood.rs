//! Specification of the flood reveal: which tiles a reveal started at one
//! origin opens, stated as reachability through contiguous zero-hint cells.

use vstd::prelude::*;
use crate::board::{
    Tile, TileStatus, TileContent, Point, TILES, in_bounds, idx, point_at, is_neighbor,
    lemma_idx_bounds, lemma_point_at_idx, lemma_idx_point_at,
};

verus! {

/// The tile at `p` is still closed.
pub open spec fn tile_closed(g: Seq<Tile>, p: Point) -> bool {
    g[idx(p)].status is Closed
}

/// The tile at `p` carries a zero hint.
pub open spec fn zero_hint(g: Seq<Tile>, p: Point) -> bool {
    g[idx(p)].content == TileContent::Hint(0u8)
}

/// One expansion step of the flood: from a closed zero-hint cell to any
/// closed on-board neighbor.
pub open spec fn flood_step(g: Seq<Tile>, a: Point, b: Point) -> bool {
    &&& in_bounds(a)
    &&& in_bounds(b)
    &&& tile_closed(g, a)
    &&& tile_closed(g, b)
    &&& zero_hint(g, a)
    &&& is_neighbor(a, b)
}

/// `p` is reached from the origin `o` by at most `n` flood steps, all taken
/// in the original grid `g`.
pub open spec fn reach(g: Seq<Tile>, o: Point, p: Point, n: nat) -> bool
    decreases n,
{
    if p == o {
        in_bounds(o) && tile_closed(g, o)
    } else if n == 0 {
        false
    } else {
        exists|q: Point| reach(g, o, q, (n - 1) as nat) && flood_step(g, q, p)
    }
}

/// A reveal at `o` opens exactly the tiles `p` with `revealed(g, o, p)`:
/// the maximal connected zero-hint region around a closed zero-hint origin
/// together with every closed tile bordering it — or just the origin when
/// its hint is not zero, or nothing when it is not closed.
pub open spec fn revealed(g: Seq<Tile>, o: Point, p: Point) -> bool {
    exists|n: nat| reach(g, o, p, n)
}

/// `t`, opened.
pub open spec fn opened_tile(t: Tile) -> Tile {
    Tile { status: TileStatus::Opened, content: t.content }
}

/// The grid after a reveal at `o`: every revealed tile is opened, every
/// other tile — and every content — is untouched.
pub open spec fn open_result(g: Seq<Tile>, o: Point) -> Seq<Tile> {
    Seq::new(
        g.len(),
        |i: int|
            if revealed(g, o, point_at(i)) {
                opened_tile(g[i])
            } else {
                g[i]
            },
    )
}

/// Nothing is reached unless the origin itself is an on-board closed tile.
pub proof fn lemma_reach_origin(g: Seq<Tile>, o: Point, p: Point, n: nat)
    requires
        reach(g, o, p, n),
    ensures
        in_bounds(o) && tile_closed(g, o),
        in_bounds(p) && tile_closed(g, p),
    decreases n,
{
    if p != o {
        let q = choose|q: Point| reach(g, o, q, (n - 1) as nat) && flood_step(g, q, p);
        lemma_reach_origin(g, o, q, (n - 1) as nat);
    }
}

/// A longer step budget reaches no fewer tiles.
pub proof fn lemma_reach_mono(g: Seq<Tile>, o: Point, p: Point, n: nat, m: nat)
    requires
        reach(g, o, p, n),
        n <= m,
    ensures
        reach(g, o, p, m),
    decreases n,
{
    if p != o {
        let q = choose|q: Point| reach(g, o, q, (n - 1) as nat) && flood_step(g, q, p);
        lemma_reach_mono(g, o, q, (n - 1) as nat, (m - 1) as nat);
        assert(reach(g, o, q, (m - 1) as nat) && flood_step(g, q, p));
    }
}

/// The revealed set is closed under flood steps from revealed cells.
pub proof fn lemma_revealed_step(g: Seq<Tile>, o: Point, q: Point, b: Point)
    requires
        revealed(g, o, q),
        flood_step(g, q, b),
    ensures
        revealed(g, o, b),
{
    let n = choose|n: nat| reach(g, o, q, n);
    if b == o {
        lemma_reach_origin(g, o, q, n);
        assert(reach(g, o, b, 0));
    } else {
        assert(reach(g, o, q, n) && flood_step(g, q, b));
        assert(reach(g, o, b, n + 1));
    }
}

/// Every revealed tile other than the origin borders a revealed closed
/// zero-hint cell: the flood never jumps past the region's boundary.
pub proof fn lemma_revealed_borders(g: Seq<Tile>, o: Point, p: Point)
    requires
        revealed(g, o, p),
        p != o,
    ensures
        exists|q: Point|
            revealed(g, o, q) && tile_closed(g, q) && zero_hint(g, q) && #[trigger] is_neighbor(
                q,
                p,
            ),
{
    let n = choose|n: nat| reach(g, o, p, n);
    let q = choose|q: Point| reach(g, o, q, (n - 1) as nat) && flood_step(g, q, p);
    assert(revealed(g, o, q));
    assert(is_neighbor(q, p));
}

/// A reveal whose origin is not a closed on-board tile opens nothing.
pub proof fn lemma_open_result_noop(g: Seq<Tile>, o: Point)
    requires
        !(in_bounds(o) && tile_closed(g, o)),
    ensures
        open_result(g, o) == g,
{
    assert forall|p: Point| !revealed(g, o, p) by {
        if revealed(g, o, p) {
            let n = choose|n: nat| reach(g, o, p, n);
            lemma_reach_origin(g, o, p, n);
        }
    }
    assert(open_result(g, o) =~= g);
}

/// Closed tiles among the first `n` cells of the grid.
pub open spec fn count_closed_upto(g: Seq<Tile>, n: int) -> nat
    decreases n,
{
    if n <= 0 {
        0
    } else {
        count_closed_upto(g, n - 1) + if 0 <= n - 1 < g.len() && g[n - 1].status is Closed {
            1nat
        } else {
            0nat
        }
    }
}

/// Closed tiles on the whole grid; the termination measure of the reveal.
pub open spec fn count_closed(g: Seq<Tile>) -> nat {
    count_closed_upto(g, g.len() as int)
}

proof fn lemma_count_closed_update_upto(g: Seq<Tile>, i: int, t: Tile, n: int)
    requires
        0 <= i < g.len(),
        g[i].status is Closed,
        !(t.status is Closed),
    ensures
        i < n ==> count_closed_upto(g.update(i, t), n) + 1 == count_closed_upto(g, n),
        i >= n ==> count_closed_upto(g.update(i, t), n) == count_closed_upto(g, n),
    decreases n,
{
    if n > 0 {
        lemma_count_closed_update_upto(g, i, t, n - 1);
    }
}

/// Opening a closed tile lowers the closed count by one.
pub proof fn lemma_count_closed_open(g: Seq<Tile>, i: int, t: Tile)
    requires
        0 <= i < g.len(),
        g[i].status is Closed,
        !(t.status is Closed),
    ensures
        count_closed(g.update(i, t)) + 1 == count_closed(g),
{
    lemma_count_closed_update_upto(g, i, t, g.len() as int);
}

/// Any cell the flood reaches lies in a set of changed cells that contains
/// the origin and is closed under flood steps.
pub proof fn lemma_reach_in_changed(g0: Seq<Tile>, o: Point, g: Seq<Tile>, p: Point, n: nat)
    requires
        reach(g0, o, p, n),
        g[idx(o)] != g0[idx(o)],
        forall|a: Point, b: Point|
            #[trigger] flood_step(g0, a, b) && g[idx(a)] != g0[idx(a)] ==> g[idx(b)] != g0[idx(b)],
    ensures
        g[idx(p)] != g0[idx(p)],
    decreases n,
{
    if p != o {
        let q = choose|q: Point| reach(g0, o, q, (n - 1) as nat) && flood_step(g0, q, p);
        lemma_reach_in_changed(g0, o, g, q, (n - 1) as nat);
    }
}

/// A reveal changes no content: bombs and hints stay exactly where they
/// were.
pub proof fn lemma_open_preserves_contents(g: Seq<Tile>, o: Point)
    ensures
        open_result(g, o).len() == g.len(),
        forall|i: int|
            0 <= i < g.len() ==> (#[trigger] open_result(g, o)[i]).content == g[i].content,
{
}

/// A reveal moves statuses one way only: each tile is untouched or goes
/// from closed to opened — flags in particular are never disturbed.
pub proof fn lemma_open_monotone(g: Seq<Tile>, o: Point)
    requires
        g.len() == TILES as int,
    ensures
        forall|i: int|
            0 <= i < g.len() ==> (#[trigger] open_result(g, o)[i]) == g[i] || (g[i].status
                is Closed && open_result(g, o)[i] == opened_tile(g[i])),
{
    assert forall|i: int|
        0 <= i < g.len() implies (#[trigger] open_result(g, o)[i]) == g[i] || (g[i].status
        is Closed && open_result(g, o)[i] == opened_tile(g[i])) by {
        lemma_idx_point_at(i);
        if revealed(g, o, point_at(i)) {
            let n = choose|n: nat| reach(g, o, point_at(i), n);
            lemma_reach_origin(g, o, point_at(i), n);
        }
    }
}

/// Revealing is idempotent: a second reveal at the same origin changes
/// nothing further.
pub proof fn lemma_open_idempotent(g: Seq<Tile>, o: Point)
    requires
        g.len() == TILES as int,
        in_bounds(o),
    ensures
        open_result(open_result(g, o), o) == open_result(g, o),
{
    let g1 = open_result(g, o);
    if !tile_closed(g, o) {
        lemma_open_result_noop(g, o);
        lemma_open_result_noop(g1, o);
    } else {
        assert(reach(g, o, o, 0));
        assert(revealed(g, o, o));
        lemma_idx_bounds(o);
        lemma_point_at_idx(o);
        assert(g1[idx(o)] == opened_tile(g[idx(o)]));
        assert(!tile_closed(g1, o));
        lemma_open_result_noop(g1, o);
    }
}

} // verus!
