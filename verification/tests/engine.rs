use minesweeper::board::{Board, Neighbors, Point, TileContent, TileStatus, HEIGHT, WIDTH};
use minesweeper::game::{Dir, GameButton, GameStatus, Minesweeper};

fn bombs_on(board: &Board) -> usize {
    board.tiles().iter().filter(|t| t.content() == TileContent::Bomb).count()
}

fn recount_hint(board: &Board, p: Point) -> u8 {
    let mut n: u8 = 0;
    let mut it = Neighbors::at(p);
    while let Some(q) = it.next() {
        if board.tile_at(q).content() == TileContent::Bomb {
            n += 1;
        }
    }
    n
}

/// A board split by a wall of bombs along the column x = 4, with hints
/// filled in by hand and the game already playing.
fn walled_game() -> Minesweeper {
    let mut g = Minesweeper::new(6);
    for y in 0..HEIGHT as i32 {
        g.board.set_content_at(Point::new(4, y), TileContent::Bomb);
        let edge = y == 0 || y == HEIGHT as i32 - 1;
        let hint = if edge { 2 } else { 3 };
        g.board.set_content_at(Point::new(3, y), TileContent::Hint(hint));
        g.board.set_content_at(Point::new(5, y), TileContent::Hint(hint));
    }
    g.status = GameStatus::Playing;
    g
}

#[test]
fn first_confirm_bootstraps_the_board() {
    // 16 x 6 grid, 8 bombs, the default seed of 42: the first confirm
    // plants exactly 8 bombs, never under the initial cursor (8, 3),
    // computes every hint, opens the cursor tile and starts playing.
    let mut g = Minesweeper::new(8);
    assert!(matches!(g.status, GameStatus::Bootstrap));
    g.button_click(GameButton::A);
    assert!(matches!(g.status, GameStatus::Playing));
    assert_eq!(bombs_on(&g.board), 8);
    let cursor_tile = g.board.tile_at(Point::new(8, 3));
    assert_ne!(cursor_tile.content(), TileContent::Bomb);
    assert_eq!(cursor_tile.status(), TileStatus::Opened);
    for x in 0..WIDTH as i32 {
        for y in 0..HEIGHT as i32 {
            let p = Point::new(x, y);
            if let TileContent::Hint(h) = g.board.tile_at(p).content() {
                assert_eq!(h, recount_hint(&g.board, p));
            }
        }
    }
}

#[test]
fn placement_is_reproducible() {
    let mut a = Minesweeper::new(12);
    let mut b = Minesweeper::new(12);
    a.seed_random(987654);
    b.seed_random(987654);
    a.button_click(GameButton::A);
    b.button_click(GameButton::A);
    assert_eq!(a.board.tiles(), b.board.tiles());
    // and a different seed gives a different layout
    let mut c = Minesweeper::new(12);
    c.seed_random(987655);
    c.button_click(GameButton::A);
    assert_ne!(c.board.tiles(), a.board.tiles());
}

#[test]
fn zero_bombs_flood_opens_everything() {
    let mut g = Minesweeper::new(0);
    g.button_click(GameButton::A);
    assert_eq!(bombs_on(&g.board), 0);
    for t in g.board.tiles() {
        assert_eq!(t.status(), TileStatus::Opened);
        assert_eq!(t.content(), TileContent::Hint(0));
    }
    // the board is cleared, so the next evaluation declares the win
    g.button_click(GameButton::B);
    assert!(matches!(g.status, GameStatus::Win));
}

#[test]
fn thirty_bombs_all_placed() {
    let mut g = Minesweeper::new(30);
    g.seed_random(2024);
    g.button_click(GameButton::A);
    assert_eq!(bombs_on(&g.board), 30);
    assert!(matches!(g.status, GameStatus::Playing));
}

#[test]
fn flood_reveal_opens_region_and_border_only() {
    let mut g = walled_game();
    g.open_tile(Point::new(0, 0));
    for x in 0..WIDTH as i32 {
        for y in 0..HEIGHT as i32 {
            let t = g.board.tile_at(Point::new(x, y));
            if x <= 3 {
                assert_eq!(t.status(), TileStatus::Opened);
            } else {
                assert_eq!(t.status(), TileStatus::Closed);
            }
        }
    }
}

#[test]
fn flood_reveal_is_idempotent() {
    let mut g = walled_game();
    g.open_tile(Point::new(0, 0));
    let after_once: Vec<_> = g.board.tiles().to_vec();
    g.open_tile(Point::new(0, 0));
    assert_eq!(g.board.tiles(), after_once.as_slice());
}

#[test]
fn flood_reveal_skips_flagged_tiles() {
    let mut g = walled_game();
    g.board.set_status_at(Point::new(1, 1), TileStatus::Flagged);
    g.open_tile(Point::new(0, 0));
    let flagged = g.board.tile_at(Point::new(1, 1));
    assert_eq!(flagged.status(), TileStatus::Flagged);
    // everything else on the near side of the wall is open
    for x in 0..=3 {
        for y in 0..HEIGHT as i32 {
            if (x, y) != (1, 1) {
                assert_eq!(g.board.tile_at(Point::new(x, y)).status(), TileStatus::Opened);
            }
        }
    }
}

#[test]
fn opening_a_hinted_tile_stays_local() {
    let mut g = walled_game();
    g.open_tile(Point::new(3, 2));
    for x in 0..WIDTH as i32 {
        for y in 0..HEIGHT as i32 {
            let expected = if (x, y) == (3, 2) { TileStatus::Opened } else { TileStatus::Closed };
            assert_eq!(g.board.tile_at(Point::new(x, y)).status(), expected);
        }
    }
}

#[test]
fn flagging_all_bombs_and_opening_the_rest_wins() {
    let mut g = walled_game();
    for x in 0..WIDTH as i32 {
        for y in 0..HEIGHT as i32 {
            let p = Point::new(x, y);
            if g.board.tile_at(p).content() == TileContent::Bomb {
                g.board.set_status_at(p, TileStatus::Flagged);
            } else {
                g.board.set_status_at(p, TileStatus::Opened);
            }
        }
    }
    g.refresh_game_state();
    assert!(matches!(g.status, GameStatus::Win));
}

#[test]
fn opening_any_bomb_loses_whatever_else_holds() {
    let mut g = walled_game();
    // flag some bombs, open some tiles, then open one bomb
    g.board.set_status_at(Point::new(4, 0), TileStatus::Flagged);
    g.board.set_status_at(Point::new(0, 0), TileStatus::Opened);
    g.board.set_status_at(Point::new(4, 2), TileStatus::Opened);
    g.refresh_game_state();
    assert!(matches!(g.status, GameStatus::GameOver));
}

#[test]
fn confirm_on_a_bomb_ends_the_game() {
    let mut g = walled_game();
    // walk the cursor from (8, 3) onto the bomb at (4, 3)
    for _ in 0..4 {
        g.button_click(GameButton::DPad(Dir::Left));
    }
    assert_eq!(g.board.cursor(), Point::new(4, 3));
    g.button_click(GameButton::A);
    assert!(matches!(g.status, GameStatus::GameOver));
}

#[test]
fn flag_toggles_only_unopened_tiles() {
    let mut g = walled_game();
    let cursor = g.board.cursor();
    g.button_click(GameButton::B);
    assert_eq!(g.board.tile_at(cursor).status(), TileStatus::Flagged);
    g.button_click(GameButton::B);
    assert_eq!(g.board.tile_at(cursor).status(), TileStatus::Closed);
    g.board.set_status_at(cursor, TileStatus::Opened);
    g.button_click(GameButton::B);
    assert_eq!(g.board.tile_at(cursor).status(), TileStatus::Opened);
}

#[test]
fn cursor_never_leaves_the_board() {
    let mut g = Minesweeper::new(5);
    for _ in 0..40 {
        g.button_click(GameButton::DPad(Dir::Left));
    }
    assert_eq!(g.board.cursor(), Point::new(0, 3));
    for _ in 0..40 {
        g.button_click(GameButton::DPad(Dir::Up));
    }
    assert_eq!(g.board.cursor(), Point::new(0, 0));
    for _ in 0..40 {
        g.button_click(GameButton::DPad(Dir::Right));
    }
    assert_eq!(g.board.cursor(), Point::new(15, 0));
    for _ in 0..40 {
        g.button_click(GameButton::DPad(Dir::Down));
    }
    assert_eq!(g.board.cursor(), Point::new(15, 5));
}

#[test]
fn restart_after_game_over_rebootstraps() {
    let mut g = walled_game();
    g.board.set_status_at(Point::new(4, 1), TileStatus::Opened);
    g.refresh_game_state();
    assert!(matches!(g.status, GameStatus::GameOver));
    g.seed_random(777);
    g.button_click(GameButton::A);
    assert!(matches!(g.status, GameStatus::Playing));
    assert_eq!(bombs_on(&g.board), 6);
    // the restarted grid is fully closed again except for nothing: restart
    // does not open the cursor tile
    for t in g.board.tiles() {
        assert_eq!(t.status(), TileStatus::Closed);
    }
}

#[test]
fn seeding_reduces_modulo_the_generator_modulus() {
    let mut a = Minesweeper::new(10);
    let mut b = Minesweeper::new(10);
    a.seed_random(5);
    b.seed_random(0x7fff_ffff + 5);
    a.button_click(GameButton::A);
    b.button_click(GameButton::A);
    assert_eq!(a.board.tiles(), b.board.tiles());
}
