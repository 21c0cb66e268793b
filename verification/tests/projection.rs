use minesweeper::board::{Point, TileContent, TileStatus, TILES, WIDTH};
use minesweeper::game::{GameStatus, Minesweeper};
use minesweeper::render::{render_glyphs, CURSOR_GLYPH_OFFSET};

#[test]
fn projection_of_a_fresh_game() {
    let g = Minesweeper::new(8);
    let glyphs = render_glyphs(&g);
    assert_eq!(glyphs.len(), TILES);
    let cursor_idx = 8 + 3 * WIDTH;
    for (i, &glyph) in glyphs.iter().enumerate() {
        if i == cursor_idx {
            assert_eq!(glyph, b'-' + CURSOR_GLYPH_OFFSET);
        } else {
            assert_eq!(glyph, b'-');
        }
    }
}

#[test]
fn projection_shows_each_tile_kind() {
    let mut g = Minesweeper::new(3);
    g.status = GameStatus::Playing;
    g.board.set_content_at(Point::new(0, 0), TileContent::Bomb);
    g.board.set_status_at(Point::new(0, 0), TileStatus::Opened);
    g.board.set_status_at(Point::new(1, 0), TileStatus::Flagged);
    g.board.set_content_at(Point::new(2, 0), TileContent::Hint(4));
    g.board.set_status_at(Point::new(2, 0), TileStatus::Opened);
    g.board.set_status_at(Point::new(3, 0), TileStatus::Opened);
    let glyphs = render_glyphs(&g);
    assert_eq!(glyphs[0], b'/');
    assert_eq!(glyphs[1], b'.');
    assert_eq!(glyphs[2], b'4');
    assert_eq!(glyphs[3], b',');
    assert_eq!(glyphs[4], b'-');
}

#[test]
fn projection_is_pure_and_idempotent() {
    let mut g = Minesweeper::new(8);
    g.button_click(minesweeper::game::GameButton::A);
    let before: Vec<_> = g.board.tiles().to_vec();
    let first = render_glyphs(&g);
    let second = render_glyphs(&g);
    assert_eq!(first, second);
    assert_eq!(g.board.tiles(), before.as_slice());
}

#[test]
fn projection_follows_the_cursor() {
    let mut g = Minesweeper::new(8);
    g.board.move_cursor(Point::new(0, 0));
    let glyphs = render_glyphs(&g);
    assert_eq!(glyphs[0], b'-' + CURSOR_GLYPH_OFFSET);
    assert_eq!(glyphs[8 + 3 * WIDTH], b'-');
}
