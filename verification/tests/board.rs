use minesweeper::board::{Board, Neighbors, Point, Tile, TileContent, TileStatus, HEIGHT, TILES, WIDTH};

#[test]
fn dimensions_and_fresh_board() {
    assert_eq!(WIDTH, 16);
    assert_eq!(HEIGHT, 6);
    assert_eq!(TILES, 96);
    let b = Board::new();
    assert_eq!(b.cursor(), Point::new(8, 3));
    assert_eq!(b.tiles().len(), 96);
    for t in b.tiles() {
        assert_eq!(t.status(), TileStatus::Closed);
        assert_eq!(t.content(), TileContent::Hint(0));
    }
}

#[test]
fn tile_accessors_roundtrip() {
    let t = Tile::new(TileStatus::Flagged, TileContent::Hint(5));
    assert_eq!(t.status(), TileStatus::Flagged);
    assert_eq!(t.content(), TileContent::Hint(5));
    let d = Tile::default();
    assert_eq!(d.status(), TileStatus::Closed);
    assert_eq!(d.content(), TileContent::Hint(0));
}

#[test]
fn board_set_and_get() {
    let mut b = Board::new();
    let p = Point::new(3, 2);
    b.set_status_at(p, TileStatus::Opened);
    b.set_content_at(p, TileContent::Bomb);
    assert_eq!(b.tile_at(p).status(), TileStatus::Opened);
    assert_eq!(b.tile_at(p).content(), TileContent::Bomb);
    // row-major addressing
    assert_eq!(b.tiles()[3 + 2 * WIDTH].content(), TileContent::Bomb);
    b.reset();
    assert_eq!(b.tile_at(p).status(), TileStatus::Closed);
    assert_eq!(b.tile_at(p).content(), TileContent::Hint(0));
}

#[test]
fn cursor_moves_and_offset() {
    let mut b = Board::new();
    b.move_cursor(Point::new(0, 0));
    assert_eq!(b.cursor_offset(), 0);
    b.move_cursor(Point::new(15, 5));
    assert_eq!(b.cursor_offset(), 15 + 5 * WIDTH);
}

#[test]
fn glyph_mapping() {
    let closed = Tile::new(TileStatus::Closed, TileContent::Bomb);
    assert_eq!(closed.glyph(), b'-');
    let flagged = Tile::new(TileStatus::Flagged, TileContent::Hint(2));
    assert_eq!(flagged.glyph(), b'.');
    let boom = Tile::new(TileStatus::Opened, TileContent::Bomb);
    assert_eq!(boom.glyph(), b'/');
    let blank = Tile::new(TileStatus::Opened, TileContent::Hint(0));
    assert_eq!(blank.glyph(), b',');
    for h in 1..=8u8 {
        let hint = Tile::new(TileStatus::Opened, TileContent::Hint(h));
        assert_eq!(hint.glyph(), b'0' + h);
    }
}

#[test]
fn neighbors_interior_order() {
    let mut it = Neighbors::at(Point::new(1, 1));
    let expected = [
        Point::new(0, 0),
        Point::new(0, 1),
        Point::new(0, 2),
        Point::new(1, 2),
        Point::new(2, 2),
        Point::new(2, 1),
        Point::new(2, 0),
        Point::new(1, 0),
    ];
    for e in expected {
        assert_eq!(it.next(), Some(e));
    }
    assert_eq!(it.next(), None);
}

#[test]
fn neighbors_clip_at_corners() {
    let mut it = Neighbors::at(Point::new(0, 0));
    let mut seen = Vec::new();
    while let Some(p) = it.next() {
        seen.push(p);
    }
    assert_eq!(seen, vec![Point::new(0, 1), Point::new(1, 1), Point::new(1, 0)]);

    let mut it = Neighbors::at(Point::new(15, 5));
    let mut seen = Vec::new();
    while let Some(p) = it.next() {
        seen.push(p);
    }
    assert_eq!(seen, vec![Point::new(14, 4), Point::new(14, 5), Point::new(15, 4)]);
}
