use chesskom::app::App;
use chesskom::board::{paint_board, RenderOptions};
use chesskom::canvas::{Canvas, Mask};
use chesskom::history::{History, HistoryStore, NullStore, SavedGame};
use chesskom::layout::{Control, HitTarget, Layout};
use chesskom::menu::MenuLayout;
use chesskom::terminal::{board, legal_moves_line, move_list, moves_from_line, parse_move, status_line, turn_text};
use chesskom::touch::{decode_event, Calibration, InputEvent, TapState};
use chesskom::{parse_fen, to_fen, Color, FenError, Game, IllegalMove, Move, MoveFlag, PieceKind, Position, Square};

fn sq(s: &str) -> Square {
    Square::from_algebraic(s).unwrap()
}

fn play(game: &mut Game, uci: &str) {
    let from = sq(&uci[0..2]);
    let to = sq(&uci[2..4]);
    let promotion = uci.chars().nth(4).and_then(PieceKind::from_char);
    game.make_move(Move { from, to, promotion, flag: MoveFlag::Normal }).expect("legal");
}

fn all_positions(game: &mut Game) -> Vec<Position> {
    game.rewind_to_start();
    let mut out = vec![game.viewed().clone()];
    while game.step_forward() {
        out.push(game.viewed().clone());
    }
    out
}

// ---- Saved games and history -------------------------------------------------

#[test]
fn saved_game_replays_to_the_same_game() {
    let mut g = Game::new();
    for m in ["a2a4", "h7h5", "a4a5", "h5h4", "a5a6", "h4h3", "a6b7", "h3g2", "b7a8q", "g2h1n", "g1f3"] {
        play(&mut g, m);
    }
    let saved = SavedGame::from_game(&g);
    let mut back = saved.to_game();
    assert!(back.is_at_live());
    assert_eq!(back.moves(), g.moves());
    assert_eq!(all_positions(&mut back), all_positions(&mut g));
}

#[test]
fn saved_game_with_castling_and_en_passant_replays() {
    let mut g = Game::from_position(parse_fen("r3k2r/pppp1ppp/8/4P3/8/8/PPPP1PPP/R3K2R b KQkq - 0 1").unwrap());
    for m in ["d7d5", "e5d6", "e8c8", "e1g1"] {
        play(&mut g, m);
    }
    let back = SavedGame::from_game(&g).to_game();
    assert_eq!(back.moves(), g.moves());
    assert_eq!(back.moves()[1].flag, MoveFlag::EnPassant);
    assert_eq!(back.moves()[2].flag, MoveFlag::CastleQueenside);
    assert_eq!(to_fen(back.current()), to_fen(g.current()));
}

#[test]
fn history_text_reads_back() {
    let mut a = Game::new();
    play(&mut a, "e2e4");
    play(&mut a, "e7e5");
    let mut b = Game::from_position(parse_fen("4k3/P7/8/8/8/8/8/4K3 w - - 0 1").unwrap());
    play(&mut b, "a7a8n");
    let mut h = History::new();
    h.add(SavedGame::from_game(&a));
    h.add(SavedGame::from_game(&b));
    let text = h.serialize();
    assert_eq!(
        text,
        "chesskom-history v1\n4k3/P7/8/8/8/8/8/4K3 w - - 0 1|a7a8n\nrnbqkbnr/pppppppp/8/8/8/8/PPPPPPPP/RNBQKBNR w KQkq - 0 1|e2e4 e7e5\n"
    );
    assert_eq!(History::parse(&text), h);
}

#[test]
fn history_keeps_the_ten_most_recent_and_skips_repeats() {
    let mut h = History::new();
    let mut g = Game::new();
    play(&mut g, "e2e4");
    h.add(SavedGame::from_game(&Game::new()));
    assert!(h.is_empty());
    h.add(SavedGame::from_game(&g));
    h.add(SavedGame::from_game(&g));
    assert_eq!(h.len(), 1);
    for m in ["e7e5", "g1f3", "b8c6", "f1c4", "g8f6", "d2d3", "f8c5", "c2c3", "d7d6", "b2b4"] {
        play(&mut g, m);
        h.add(SavedGame::from_game(&g));
    }
    assert_eq!(h.len(), 10);
    assert_eq!(h.games[0].move_count(), 11);
    assert_eq!(h.games[9].move_count(), 2);
}

#[test]
fn history_parse_rejects_unknown_header_and_skips_bad_lines() {
    assert!(History::parse("").is_empty());
    assert!(History::parse("something else\nx|e2e4\n").is_empty());
    let h = History::parse("  chesskom-history v1  \r\nno separator here\n\n  8/8/8/8/8/8/8/K6k w - - 0 1|e2e4 zz a1a2 \n");
    assert_eq!(h.len(), 1);
    assert_eq!(h.games[0].start_fen, "8/8/8/8/8/8/8/K6k w - - 0 1");
    assert_eq!(h.games[0].moves.len(), 2);
}

#[test]
fn saved_game_label_shows_full_moves_and_result() {
    let mut g = Game::new();
    for m in ["f2f3", "e7e5", "g2g4", "d8h4"] {
        play(&mut g, m);
    }
    assert_eq!(SavedGame::from_game(&g).label(0), "2 MOVES  0-1");
    let mut u = Game::new();
    play(&mut u, "e2e4");
    assert_eq!(SavedGame::from_game(&u).label(4), "1 MOVES  UNFINISHED");
    let s = SavedGame::from_game(&Game::from_position(parse_fen("7k/5Q2/6K1/8/8/8/8/8 b - - 0 1").unwrap()));
    assert_eq!(s.label(1), "0 MOVES  DRAW");
}

#[test]
fn square_names_outside_the_board_are_refused() {
    assert_eq!(Square::from_algebraic("e4"), Some(Square(28)));
    assert_eq!(Square::from_algebraic("a1"), Some(Square(0)));
    assert_eq!(Square::from_algebraic("h8"), Some(Square(63)));
    for bad in ["e9", "i1", "e", "e44", "", "\u{161}1", "a0", "A1", "1a"] {
        assert_eq!(Square::from_algebraic(bad), None, "{bad}");
    }
    for i in 0..64u8 {
        let q = Square(i);
        assert_eq!(Square::from_algebraic(&q.to_algebraic()), Some(q));
    }
}

// ---- Rewind ------------------------------------------------------------------

#[test]
fn step_back_then_forward_returns_to_the_same_view() {
    let mut g = Game::new();
    for m in ["e2e4", "e7e5", "g1f3"] {
        play(&mut g, m);
    }
    g.seek(1);
    assert_eq!(g.viewed_ply(), 1);
    assert!(g.step_back());
    assert!(g.step_forward());
    assert_eq!(g.viewed_ply(), 1);
    assert!(g.step_forward());
    assert!(g.step_forward());
    assert!(!g.step_forward());
    assert!(g.is_at_live());
    g.seek(99);
    assert!(g.is_at_live());
    g.rewind_to_start();
    assert!(!g.step_back());
    assert_eq!(g.ply(), 3);
}

#[test]
fn default_game_is_the_start_position() {
    let g = Game::default();
    assert_eq!(g.ply(), 0);
    assert_eq!(to_fen(g.current()), "rnbqkbnr/pppppppp/8/8/8/8/PPPPPPPP/RNBQKBNR w KQkq - 0 1");
}

#[test]
fn game_over_refuses_moves() {
    let mut g = Game::from_position(parse_fen("7k/5Q2/6K1/8/8/8/8/8 b - - 0 1").unwrap());
    let r = g.make_move(Move::normal(sq("h8"), sq("h7")));
    assert_eq!(r, Err(IllegalMove));
    assert_eq!(IllegalMove.message(), "illegal move");
}

// ---- FEN errors ----------------------------------------------------------------

#[test]
fn fen_errors_name_what_is_wrong() {
    let e = parse_fen("8/8/8/8/8/8/8/8").unwrap_err();
    assert_eq!(e, FenError::Missing("active color"));
    assert_eq!(e.message(), "missing FEN field: active color");
    assert_eq!(parse_fen("").unwrap_err(), FenError::Missing("piece placement"));
    let e = parse_fen("8/8/8/8/8/8/8/7z w - - 0 1").unwrap_err();
    assert_eq!(e.message(), "invalid piece char: z");
    let e = parse_fen("8/8/8/8/8/8/8/8 g - - 0 1").unwrap_err();
    assert_eq!(e.message(), "invalid active color: g");
    let e = parse_fen("8/8/8/8/8/8/8/8 w - e9 0 1").unwrap_err();
    assert_eq!(e.message(), "invalid square: e9");
    let e = parse_fen("8/8/8/8/8/8/8/7 w - - 0 1").unwrap_err();
    assert_eq!(e, FenError::BadRankWidth(0));
    assert_eq!(e.message(), "rank 0 does not sum to 8 files");
    let e = parse_fen("8/8/8/8/8/8/8 w - - 0 1").unwrap_err();
    assert_eq!(e.message(), "FEN must have exactly 8 ranks");
    assert_eq!(parse_fen("8/8/8/8/8/8/8/8/8 w - - 0 1").unwrap_err(), FenError::BadRankCount);
    let e = parse_fen("8/8/8/8/8/8/8/8/7 w - - 0 1").unwrap_err();
    assert_eq!(e, FenError::BadRankWidth(-1));
    assert_eq!(e.message(), "rank -1 does not sum to 8 files");
    assert_eq!(FenError::OutOfRange.message(), "square out of range");
}

// ---- Terminal text -------------------------------------------------------------

#[test]
fn terminal_board_of_the_start_position() {
    let s = board(&Position::start(), Color::White, None);
    assert_eq!(
        s,
        "  +------------------------+\n8 | ♜  ♞  ♝  ♛  ♚  ♝  ♞  ♜ |\n7 | ♟  ♟  ♟  ♟  ♟  ♟  ♟  ♟ |\n6 |    ·     ·     ·     · |\n5 | ·     ·     ·     ·    |\n4 |    ·     ·     ·     · |\n3 | ·     ·     ·     ·    |\n2 | ♙  ♙  ♙  ♙  ♙  ♙  ♙  ♙ |\n1 | ♖  ♘  ♗  ♕  ♔  ♗  ♘  ♖ |\n  +------------------------+\n    a  b  c  d  e  f  g  h \n"
    );
}

#[test]
fn terminal_board_from_black_marks_the_last_move() {
    let s = board(&Position::start(), Color::Black, Some(Move::normal(sq("e2"), sq("e4"))));
    assert_eq!(
        s,
        "  +------------------------+\n1 | ♖  ♘  ♗  ♔  ♕  ♗  ♘  ♖ |\n2 | ♙  ♙  ♙ [♙] ♙  ♙  ♙  ♙ |\n3 |    ·     ·     ·     · |\n4 | ·     · [ ] ·     ·    |\n5 |    ·     ·     ·     · |\n6 | ·     ·     ·     ·    |\n7 | ♟  ♟  ♟  ♟  ♟  ♟  ♟  ♟ |\n8 | ♜  ♞  ♝  ♚  ♛  ♝  ♞  ♜ |\n  +------------------------+\n    h  g  f  e  d  c  b  a \n"
    );
}

#[test]
fn terminal_status_lines() {
    let mut g = Game::new();
    assert_eq!(status_line(&g), "White to move");
    for m in ["e2e4", "f7f6", "d2d4", "g7g5"] {
        play(&mut g, m);
    }
    assert_eq!(status_line(&g), "White to move");
    play(&mut g, "d1h5");
    assert_eq!(status_line(&g), "Checkmate — White wins");
    let mut c = Game::from_position(parse_fen("4k3/8/8/8/8/8/8/4K2R w - - 0 1").unwrap());
    play(&mut c, "h1h8");
    assert_eq!(status_line(&c), "Black to move  (check!)");
    let s = Game::from_position(parse_fen("7k/5Q2/6K1/8/8/8/8/8 b - - 0 1").unwrap());
    assert_eq!(status_line(&s), "Draw — stalemate");
    let f = Game::from_position(parse_fen("4k3/8/8/8/8/8/8/R3K3 w - - 100 60").unwrap());
    assert_eq!(status_line(&f), "Draw — fifty-move rule");
    let i = Game::from_position(parse_fen("8/8/4k3/8/8/4K3/8/8 w - - 0 1").unwrap());
    assert_eq!(status_line(&i), "Draw — insufficient material");
    let mut r = Game::new();
    for m in ["g1f3", "g8f6", "f3g1", "f6g8", "g1f3", "g8f6", "f3g1", "f6g8"] {
        play(&mut r, m);
    }
    assert_eq!(status_line(&r), "Draw — threefold repetition");
}

#[test]
fn terminal_move_list_numbers_white_moves() {
    let mut g = Game::new();
    assert_eq!(move_list(&g), "");
    for m in ["e2e4", "e7e5", "g1f3"] {
        play(&mut g, m);
    }
    assert_eq!(move_list(&g), "1. e2e4 e7e5 2. g1f3 ");
}

#[test]
fn typed_moves_are_read_with_separators_and_promotions() {
    assert_eq!(parse_move("e2e4"), Ok(Move::normal(sq("e2"), sq("e4"))));
    assert_eq!(parse_move("e2-e4"), Ok(Move::normal(sq("e2"), sq("e4"))));
    assert_eq!(parse_move("e4xd5"), Ok(Move::normal(sq("e4"), sq("d5"))));
    assert_eq!(
        parse_move("e7e8q"),
        Ok(Move { from: sq("e7"), to: sq("e8"), promotion: Some(PieceKind::Queen), flag: MoveFlag::Normal })
    );
    assert_eq!(parse_move("e7e8z"), Ok(Move::normal(sq("e7"), sq("e8"))));
    assert_eq!(
        parse_move("e2"),
        Err("Enter a move like 'e2e4' (or 'e7e8q' to promote). Got: e2".to_string())
    );
    assert_eq!(parse_move("z2e4"), Err("Bad from-square in 'z2e4'".to_string()));
    assert_eq!(parse_move("e2e9"), Err("Bad to-square in 'e2e9'".to_string()));
    assert_eq!(parse_move("é2e4"), Err("Bad from-square in 'é2e4'".to_string()));
}

#[test]
fn still_board_footer_names_the_side_to_move() {
    assert_eq!(turn_text(&Position::start()), "WHITE TO MOVE");
    assert_eq!(turn_text(&parse_fen("4k3/8/8/8/8/8/8/4K3 b - - 0 1").unwrap()), "BLACK TO MOVE");
}

// ---- Geometry --------------------------------------------------------------------

#[test]
fn control_bar_labels_and_order() {
    let bar = Control::bar();
    let labels: Vec<&str> = bar.iter().map(|c| c.label()).collect();
    assert_eq!(labels, vec!["FIRST", "PREV", "NEXT", "LIVE", "FLIP", "NEW", "QUIT"]);
}

#[test]
fn layout_of_the_clara_board_screen() {
    let l = Layout::new(1072, 1448, Color::White, true, true, true);
    assert_eq!((l.margin, l.label, l.header_h), (44, 59, 89));
    assert_eq!((l.board_x, l.board_y, l.square, l.board_px), (103, 133, 115, 920));
    assert_eq!(l.controls.len(), 7);
    assert_eq!(l.controls[0].0, Control::First);
    assert_eq!((l.controls[0].1.x, l.controls[0].1.y, l.controls[0].1.w, l.controls[0].1.h), (44, 1270, 133, 134));
    assert_eq!(l.controls[6].1.x, 44 + 6 * 141);
    assert_eq!(l.cell_for(0, 0), (0, 7));
    let b = Layout::new(1072, 1448, Color::Black, false, false, false);
    assert!(b.controls.is_empty());
    assert_eq!(b.cell_for(0, 0), (7, 0));
    assert_eq!(b.square_origin(7, 7), (b.board_x, b.board_y + 7 * b.square));
}

#[test]
fn every_square_center_hits_its_square() {
    for orient in [Color::White, Color::Black] {
        let l = Layout::new(1072, 1448, orient, true, true, true);
        for i in 0..64u8 {
            let s = Square(i);
            let (x, y) = l.square_origin(s.file(), s.rank());
            assert_eq!(l.hit(x + l.square / 2, y + l.square / 2), Some(HitTarget::Square(s)));
            assert_eq!(l.hit(x, y), Some(HitTarget::Square(s)));
            assert_eq!(l.hit(x + l.square - 1, y + l.square - 1), Some(HitTarget::Square(s)));
        }
        assert_eq!(l.hit(0, 0), None);
        assert_eq!(l.hit(50, 1300), Some(HitTarget::Button(Control::First)));
    }
}

#[test]
fn menu_items_stack_and_hit() {
    let m = MenuLayout::new(1072, 1448, 4);
    assert_eq!(m.items.len(), 4);
    assert_eq!((m.items[0].x, m.items[0].y, m.items[0].w, m.items[0].h), (134, 614, 804, 119));
    assert_eq!(m.items[1].y, 768);
    assert_eq!((m.title_scale, m.item_scale), (11, 4));
    for (i, r) in m.items.iter().enumerate() {
        assert_eq!(m.hit(r.x + r.w / 2, r.y + r.h / 2), Some(i));
        assert_eq!(m.hit(r.x, r.y), Some(i));
    }
    assert_eq!(m.hit(10, 10), None);
    assert_eq!(m.hit(500, 740), None);
}

#[test]
fn touch_calibration_scales_swaps_inverts_and_clamps() {
    let mut c = Calibration { screen_w: 1072, screen_h: 1448, max_x: 1072, max_y: 1448, swap: false, inv_x: false, inv_y: false };
    assert_eq!(c.map(100, 200), (100, 200));
    assert_eq!(c.map(-5, 5000), (0, 1447));
    c.max_x = 2144;
    assert_eq!(c.map(100, 200), (50, 200));
    c.max_x = 0;
    assert_eq!(c.map(1, 200), (1071, 200));
    c.max_x = 1072;
    c.swap = true;
    assert_eq!(c.map(100, 200), (200, 100));
    c.swap = false;
    c.inv_x = true;
    c.inv_y = true;
    assert_eq!(c.map(100, 200), (971, 1247));
    let small = Calibration { screen_w: 10, screen_h: 10, max_x: 4, max_y: 4, swap: false, inv_x: true, inv_y: false };
    assert_eq!(small.map(1, 1), (7, 2));
}

// ---- Painting ------------------------------------------------------------------------

#[test]
fn canvas_fill_is_clipped_to_the_canvas() {
    let mut c = Canvas::new(4, 3, 9);
    c.fill_rect(-2, 1, 4, 10, 1);
    assert_eq!(c.pixels, vec![9, 9, 9, 9, 1, 1, 9, 9, 1, 1, 9, 9]);
    c.set(3, 0, 5);
    c.set(4, 0, 7);
    assert_eq!(c.get(3, 0), 5);
    assert_eq!(c.pixels.iter().filter(|&&p| p == 7).count(), 0);
}

#[test]
fn mask_erosion_keeps_only_fully_covered_pixels() {
    let mut m = Mask::new(5, 5);
    for y in 0..4 {
        for x in 0..4 {
            m.set(x, y);
        }
    }
    assert!(m.get(3, 3));
    assert!(!m.get(4, 4));
    assert!(!m.get(-1, 0));
    let e = m.erode(1);
    let kept: Vec<(i32, i32)> = (0..5).flat_map(|y| (0..5).map(move |x| (x, y))).filter(|&(x, y)| e.get(x, y)).collect();
    assert_eq!(kept, vec![(1, 1), (2, 1), (1, 2), (2, 2)]);
    let same = m.erode(0);
    assert_eq!(same.bits, m.bits);
}

#[test]
fn painted_board_has_shaded_squares_frame_and_background() {
    let mut o = RenderOptions::clara_bw();
    let px = |c: &Canvas, x: u32, y: u32| c.pixels[(y * c.width + x) as usize];
    let c = paint_board(&o);
    assert_eq!((c.width, c.height), (1072, 1448));
    assert_eq!(px(&c, 113, 903), 168); // a1, dark
    assert_eq!(px(&c, 228, 903), 255); // b1, light
    assert_eq!(px(&c, 101, 500), 0); // frame, left
    assert_eq!(px(&c, 500, 87), 0); // frame, top
    assert_eq!(px(&c, 10, 10), 255); // page
    o.highlight = Some((sq("e2"), sq("e4")));
    o.orient = Color::Black;
    let h = paint_board(&o);
    // From Black's side e2 is in column 3, row 1.
    assert_eq!(px(&h, 103 + 3 * 115 + 5, 88 + 115 + 5), 255 - 48);
    assert_eq!(px(&h, 113, 903), 168); // h8 from Black's side, dark
}

#[test]
fn png_of_a_tiny_canvas_is_complete() {
    let c = Canvas::new(1, 1, 0);
    let bytes = chesskom::png::encode_grayscale(&c);
    let n = bytes.len();
    assert_eq!(&bytes[n - 12..], &[0, 0, 0, 0, b'I', b'E', b'N', b'D', 0xAE, 0x42, 0x60, 0x82]);
    // IHDR of a 1x1 8-bit grayscale image has a well-known CRC.
    assert_eq!(&bytes[16..33], &[0, 0, 0, 1, 0, 0, 0, 1, 8, 0, 0, 0, 0, 0x3A, 0x7E, 0x9B, 0x55]);
    // zlib stream: header, one final stored block of 2 bytes, Adler-32 of [0, 0].
    assert_eq!(&bytes[41..54], &[0x78, 0x01, 1, 2, 0, 0xFD, 0xFF, 0, 0, 0x00, 0x02, 0x00, 0x01]);
}

// ---- The application ---------------------------------------------------------------

#[test]
fn app_with_a_store_starts_on_the_main_menu() {
    let mut app = App::with_store(1072, 1448, NullStore);
    assert!(!app.in_game());
    let (title, labels) = app.menu_spec();
    assert_eq!(title, "CHESSKOM");
    assert_eq!(labels, vec!["LOCAL", "CHESS.COM", "LICHESS", "QUIT"]);
    let m = MenuLayout::new(1072, 1448, 4);
    let r = m.items[0];
    assert!(app.tap_pixel(r.x + 5, r.y + 5));
    assert_eq!(app.menu_spec().0, "LOCAL");
    let m3 = MenuLayout::new(1072, 1448, 3);
    let r = m3.items[1];
    assert!(app.tap_pixel(r.x + 5, r.y + 5));
    assert_eq!(app.menu_spec(), ("HISTORY".to_string(), vec!["(NO SAVED GAMES)".to_string(), "BACK".to_string()]));
    let m2 = MenuLayout::new(1072, 1448, 2);
    assert!(!app.tap_pixel(m2.items[0].x + 5, m2.items[0].y + 5));
    assert!(app.tap_pixel(m2.items[1].x + 5, m2.items[1].y + 5));
    assert!(app.tap_pixel(m3.items[0].x + 5, m3.items[0].y + 5));
    assert!(app.in_game());
    assert_eq!(app.game().ply(), 0);
}

#[test]
fn app_main_menu_quit_and_coming_soon() {
    let mut app = App::with_store(1072, 1448, NullStore);
    let m = MenuLayout::new(1072, 1448, 4);
    assert!(app.tap_pixel(m.items[1].x + 5, m.items[1].y + 5));
    assert_eq!(app.menu_spec(), ("CHESS.COM".to_string(), vec!["COMING SOON".to_string(), "BACK".to_string()]));
    let m2 = MenuLayout::new(1072, 1448, 2);
    assert!(app.tap_pixel(m2.items[1].x + 5, m2.items[1].y + 5));
    assert_eq!(app.menu_spec().0, "CHESSKOM");
    assert!(!app.tap_pixel(1, 1));
    assert!(app.tap_pixel(m.items[3].x + 5, m.items[3].y + 5));
    assert!(app.should_quit());
}

#[test]
fn new_game_saves_the_played_game_and_history_replays_it() {
    let mut app = App::with_store(1072, 1448, NullStore);
    app.start_new_local_game();
    app.tap_square(sq("e2"));
    app.tap_square(sq("e4"));
    assert!(app.press(Control::New));
    assert_eq!(app.history().len(), 1);
    assert_eq!(app.history().games[0].moves, vec![Move::normal(sq("e2"), sq("e4"))]);
    // An empty game is not saved again.
    app.start_new_local_game();
    assert_eq!(app.history().len(), 1);
    app.set_game(Game::new());
    // Quitting saves too.
    app.tap_square(sq("d2"));
    app.tap_square(sq("d4"));
    assert!(app.press(Control::Quit));
    assert!(app.should_quit());
    assert_eq!(app.history().len(), 2);
}

#[test]
fn board_screen_footer_and_highlight() {
    let mut app = App::clara_bw();
    let o = app.render_options();
    assert_eq!(o.header.as_deref(), Some("CHESSKOM"));
    assert_eq!(o.footer.as_deref(), Some("WHITE TO MOVE"));
    assert!(o.controls);
    assert_eq!(o.highlight, None);
    app.tap_square(sq("e2"));
    app.tap_square(sq("e4"));
    app.tap_square(sq("d7"));
    app.tap_square(sq("d5"));
    let o = app.render_options();
    assert_eq!(o.highlight, Some((sq("d7"), sq("d5"))));
    assert_eq!(o.footer.as_deref(), Some("WHITE TO MOVE"));
    app.press(Control::Prev);
    assert_eq!(app.render_options().footer.as_deref(), Some("VIEWING 1/2"));
    app.press(Control::First);
    assert_eq!(app.render_options().highlight, None);
    let mut m = App::clara_bw();
    m.set_game(Game::from_position(parse_fen("6k1/5ppp/8/8/8/8/8/R5K1 w - - 0 1").unwrap()));
    m.tap_square(sq("a1"));
    m.tap_square(sq("a8"));
    assert_eq!(m.render_options().footer.as_deref(), Some("CHECKMATE - WHITE WINS"));
    // A finished game ignores board taps.
    assert!(!m.tap_square(sq("g8")));
}

#[test]
fn selecting_shows_each_target_once() {
    let mut app = App::clara_bw();
    app.set_game(Game::from_position(parse_fen("4k3/P7/8/8/8/8/8/4K3 w - - 0 1").unwrap()));
    app.tap_square(sq("a7"));
    // Four promotions to a8 show as one target.
    assert_eq!(app.render_options().targets, vec![sq("a8")]);
    app.tap_square(sq("e1"));
    let mut t = app.render_options().targets;
    t.sort_by_key(|s| s.0);
    assert_eq!(t, vec![sq("d1"), sq("f1"), sq("d2"), sq("e2"), sq("f2")]);
}

#[test]
fn legal_moves_are_listed_by_squares() {
    let g = Game::from_position(parse_fen("4k3/8/8/8/8/8/8/R3K3 w Q - 0 1").unwrap());
    assert_eq!(
        legal_moves_line(&g),
        "legal moves (16): a1b1 a1c1 a1d1 a1a2 a1a3 a1a4 a1a5 a1a6 a1a7 a1a8 e1c1 e1d1 e1f1 e1d2 e1e2 e1f2"
    );
    let p = Game::from_position(parse_fen("4k3/P7/8/8/8/8/8/4K3 w - - 0 1").unwrap());
    let line = legal_moves_line(&p);
    assert!(line.starts_with("legal moves (9): e1d1 e1f1 e1d2 e1e2 e1f2 a7a8"));
    let m = Game::from_position(parse_fen("7k/5Q2/6K1/8/8/8/8/8 b - - 0 1").unwrap());
    assert_eq!(legal_moves_line(&m), "legal moves (0): ");
}

#[test]
fn moves_from_a_square_are_listed() {
    let g = Game::new();
    let e2 = moves_from_line(&g, "e2");
    assert!(e2 == "from e2: e3 e4" || e2 == "from e2: e4 e3");
    assert_eq!(moves_from_line(&g, "e4"), "No legal moves from e4.");
    assert_eq!(moves_from_line(&g, "z9"), "Not a square: z9");
    let p = Game::from_position(parse_fen("4k3/P7/8/8/8/8/8/4K3 w - - 0 1").unwrap());
    let line = moves_from_line(&p, "a7");
    assert!(line.starts_with("from a7: a8"));
    assert_eq!(line.len(), "from a7: a8q a8r a8b a8n".len());
}

#[test]
fn painted_menu_has_bordered_buttons() {
    let m = MenuLayout::new(1072, 1448, 4);
    let c = m.paint(2);
    let px = |x: u32, y: u32| c.pixels[(y * c.width + x) as usize];
    let r = m.items[0];
    assert_eq!(px(r.x + 10, r.y + 10), 244);
    assert_eq!(px(r.x + 1, r.y + 10), 0);
    assert_eq!(px(r.x + 10, r.y + r.h - 1), 0);
    assert_eq!(px(r.x + r.w - 3, r.y + 50), 0);
    assert_eq!(px(r.x + r.w - 4, r.y + 50), 244);
    assert_eq!(px(r.x + r.w, r.y + 50), 255);
    let third = m.items[2];
    assert_eq!(px(third.x + 10, third.y + 10), 255);
    assert_eq!(px(5, 5), 255);
}

struct TwoGames;

impl HistoryStore for TwoGames {
    fn load(&self) -> History {
        let mut fools = Game::new();
        for m in ["f2f3", "e7e5", "g2g4", "d8h4"] {
            play(&mut fools, m);
        }
        let mut open = Game::new();
        play(&mut open, "e2e4");
        History { games: vec![SavedGame::from_game(&fools), SavedGame::from_game(&open)] }
    }

    fn save(&self, _history: &History) {}
}

#[test]
fn history_menu_numbers_the_saved_games() {
    let mut app = App::with_store(1072, 1448, TwoGames);
    let m4 = MenuLayout::new(1072, 1448, 4);
    assert!(app.tap_pixel(m4.items[0].x + 5, m4.items[0].y + 5));
    let m3 = MenuLayout::new(1072, 1448, 3);
    assert!(app.tap_pixel(m3.items[1].x + 5, m3.items[1].y + 5));
    let (title, labels) = app.menu_spec();
    assert_eq!(title, "HISTORY");
    assert_eq!(labels, vec!["1. 2 MOVES  0-1", "2. 1 MOVES  UNFINISHED", "BACK"]);
}

#[test]
fn every_position_is_the_start_with_the_moves_played_out() {
    let mut g = Game::new();
    for m in ["e2e4", "e7e5", "g1f3", "b8c6"] {
        play(&mut g, m);
    }
    let mut folded = vec![Position::start()];
    for m in g.moves() {
        let next = folded.last().unwrap().apply_unchecked(*m);
        folded.push(next);
    }
    assert_eq!(g.current(), folded.last().unwrap());
    g.seek(2);
    assert_eq!(g.viewed(), &folded[2]);
    g.rewind_to_start();
    assert_eq!(g.viewed(), &Position::start());
    g.step_forward();
    assert_eq!(g.viewed(), &folded[1]);
    // Refused requests and view moves leave the start alone.
    assert!(g.make_move(Move::normal(sq("e1"), sq("e8"))).is_err());
    g.forward_to_live();
    g.step_back();
    assert_eq!(g.initial(), &Position::start());
    play(&mut g, "f1c4");
    assert_eq!(g.initial(), &Position::start());
    assert_eq!(g.current(), &folded.last().unwrap().apply_unchecked(g.moves()[4]));
}

#[test]
fn a_tap_inside_each_bar_button_finds_that_button() {
    let l = Layout::new(1072, 1448, Color::White, true, false, true);
    let bar = Control::bar();
    assert_eq!(l.controls.len(), 7);
    for (i, (c, r)) in l.controls.iter().enumerate() {
        assert_eq!(*c, bar[i]);
        for (x, y) in [(r.x, r.y), (r.x + r.w / 2, r.y + r.h / 2), (r.x + r.w - 1, r.y + r.h - 1)] {
            assert_eq!(l.hit(x, y), Some(HitTarget::Button(bar[i])));
            for (j, (_, other)) in l.controls.iter().enumerate() {
                assert_eq!(other.contains(x, y), i == j);
            }
        }
    }
}

#[test]
fn menu_buttons_stack_down_from_the_title_area() {
    let m = MenuLayout::new(1072, 1448, 4);
    let (bh, gap) = (1072 / 9, 1072 / 30);
    assert!(m.items[0].y >= 1448 / 4);
    for (i, r) in m.items.iter().enumerate() {
        assert_eq!(r.x, (1072 - 1072 * 3 / 4) / 2);
        assert_eq!(r.y, m.items[0].y + i as u32 * (bh + gap));
        assert_eq!(m.hit(r.x + r.w / 2, r.y + r.h / 2), Some(i));
    }
    assert_eq!(m.hit(0, 0), None);
    assert_eq!((m.title_scale, m.item_scale), (11, 4));
}

#[test]
fn pieces_are_placed_on_their_squares() {
    let mut o = RenderOptions::clara_bw();
    let l = o.layout();
    let draws = chesskom::board::piece_draws(&Position::start(), &o);
    assert_eq!(draws.len(), 32);
    let a1 = draws[0];
    assert_eq!(a1.piece, chesskom::Piece { color: Color::White, kind: PieceKind::Rook });
    assert_eq!((a1.x, a1.y, a1.size), (l.board_x, l.board_y + 7 * l.square, l.square));
    assert_eq!(a1.bg, o.dark_sq);
    assert!(!a1.flip);
    assert_eq!(draws[1].bg, o.light_sq);
    let h8 = draws[31];
    assert_eq!(h8.piece, chesskom::Piece { color: Color::Black, kind: PieceKind::Rook });
    assert_eq!((h8.x, h8.y), (l.board_x + 7 * l.square, l.board_y));
    let occupied: Vec<u8> = (0..16).chain(48..64).collect();
    for (d, i) in draws.iter().zip(occupied) {
        assert_eq!(l.hit(d.x + d.size / 2, d.y + d.size / 2), Some(HitTarget::Square(Square(i))));
        assert_eq!(l.hit(d.x, d.y + d.size - 1), Some(HitTarget::Square(Square(i))));
    }
    o.over_the_board = true;
    let turned = chesskom::board::piece_draws(&Position::start(), &o);
    assert!(turned.iter().all(|d| d.flip == (d.piece.color == Color::Black)));
    o.orient = Color::Black;
    let l = o.layout();
    let from_black = chesskom::board::piece_draws(&Position::start(), &o);
    assert_eq!((from_black[0].x, from_black[0].y), (l.board_x + 7 * l.square, l.board_y));
    assert!(from_black.iter().all(|d| d.flip == (d.piece.color == Color::White)));
}

#[test]
fn legal_moves_come_square_by_square_and_only_castles_repeat() {
    let moves = Position::start().legal_moves();
    assert_eq!(moves.len(), 20);
    assert!(moves.windows(2).all(|w| w[0].from.0 <= w[1].from.0));
    // Two white kings: castling is offered once per king, nothing else repeats.
    let p = parse_fen("4k3/8/8/8/8/8/K7/4K2R w K - 0 1").unwrap();
    let moves = p.legal_moves();
    let castles = moves.iter().filter(|m| m.flag == MoveFlag::CastleKingside).count();
    assert_eq!(castles, 2);
    for (i, a) in moves.iter().enumerate() {
        for b in &moves[i + 1..] {
            assert!(a != b || a.flag == MoveFlag::CastleKingside);
        }
    }
}

fn record(etype: u16, code: u16, value: i32) -> Vec<u8> {
    let mut r = vec![0u8; 8];
    r.extend_from_slice(&etype.to_le_bytes());
    r.extend_from_slice(&code.to_le_bytes());
    r.extend_from_slice(&value.to_le_bytes());
    r
}

#[test]
fn input_records_decode_from_their_last_eight_bytes() {
    assert_eq!(decode_event(&record(3, 0x35, 517)), InputEvent { etype: 3, code: 0x35, value: 517 });
    assert_eq!(decode_event(&record(3, 0x39, -1)), InputEvent { etype: 3, code: 0x39, value: -1 });
    let mut long = vec![9u8; 16];
    long.extend_from_slice(&record(1, 0x14a, 0)[8..]);
    assert_eq!(decode_event(&long), InputEvent { etype: 1, code: 0x14a, value: 0 });
}

#[test]
fn a_finger_lifting_reports_the_last_position() {
    let mut s = TapState::new();
    // A release before any position reports nothing.
    assert_eq!(s.step(decode_event(&record(1, 0x14a, 0))), None);
    assert_eq!(s.step(decode_event(&record(3, 0x35, 100))), None);
    assert_eq!(s.step(decode_event(&record(3, 0x36, 200))), None);
    assert_eq!(s.step(decode_event(&record(0, 0, 0))), None);
    assert_eq!(s.step(decode_event(&record(3, 0x39, -1))), Some((100, 200)));
    assert_eq!(s.step(decode_event(&record(3, 0x00, 7))), None);
    assert_eq!(s.step(decode_event(&record(1, 0x14a, 1))), None);
    assert_eq!(s.step(decode_event(&record(1, 0x14a, 0))), Some((7, 200)));
}

#[test]
fn start_position_moves_come_in_generation_order() {
    let ucis: Vec<String> = Position::start().legal_moves().iter().map(|m| m.to_uci()).collect();
    let mut expected = vec!["b1c3", "b1a3", "g1h3", "g1f3"];
    expected.extend([
        "a2a3", "a2a4", "b2b3", "b2b4", "c2c3", "c2c4", "d2d3", "d2d4", "e2e3", "e2e4", "f2f3", "f2f4", "g2g3", "g2g4",
        "h2h3", "h2h4",
    ]);
    assert_eq!(ucis, expected);
    let g = Game::new();
    assert_eq!(g.legal_moves(), Position::start().legal_moves());
}
