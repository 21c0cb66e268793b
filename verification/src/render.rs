//! Render projection: the pure transform from engine state to the flat
//! row-major glyph sequence a display driver paints.

use vstd::prelude::*;
use crate::board::{Tile, TILES, idx, glyph_of, content_ok};
use crate::game::Minesweeper;

verus! {

/// Added to the glyph of the cursor cell to select its highlighted variant
/// in the display's symbol table.
pub const CURSOR_GLYPH_OFFSET: u8 = 13;

/// Glyph for one cell: the tile's own glyph, shifted by the cursor offset
/// when the cell is under the cursor.
pub open spec fn cell_glyph(t: Tile, under_cursor: bool) -> u8 {
    if under_cursor {
        (glyph_of(t) + CURSOR_GLYPH_OFFSET) as u8
    } else {
        glyph_of(t)
    }
}

/// Bound on every glyph value, so the cursor offset can never wrap.
pub proof fn lemma_glyph_bound(t: Tile)
    requires
        content_ok(t.content),
    ensures
        glyph_of(t) <= 56,
{
}

/// Project the whole game onto its display alphabet: one glyph per tile in
/// row-major order, the cursor cell's glyph shifted by the highlight
/// offset. Pure and idempotent; the game is not touched.
pub fn render_glyphs(game: &Minesweeper) -> (out: Vec<u8>)
    requires
        game.wf(),
    ensures
        out@.len() == TILES as int,
        forall|i: int|
            0 <= i < TILES as int ==> out@[i] == cell_glyph(
                game.board.tiles@[i],
                i == idx(game.board.cursor),
            ),
{
    let tiles = game.board.tiles();
    let cursor_idx = game.board.cursor_offset();
    let mut out: Vec<u8> = Vec::new();
    let mut i: usize = 0;
    while i < TILES
        invariant
            i <= TILES,
            tiles@ == game.board.tiles@,
            tiles@.len() == TILES as int,
            cursor_idx as int == idx(game.board.cursor),
            game.wf(),
            out@.len() == i as int,
            forall|j: int|
                0 <= j < i as int ==> out@[j] == cell_glyph(
                    game.board.tiles@[j],
                    j == idx(game.board.cursor),
                ),
        decreases TILES - i,
    {
        let mut glyph = tiles[i].glyph();
        if i == cursor_idx {
            glyph += CURSOR_GLYPH_OFFSET;
        }
        out.push(glyph);
        i += 1;
    }
    out
}

} // verus!
