//! The interactive application: screens, the game controller, and history.
//!
//! The app is a small screen state machine:
//!   MainMenu ──▶ LocalMenu ──▶ Game (play)
//!      │             └───────▶ History ──▶ Game (replay)
//!      ├──▶ ComingSoon("CHESS.COM")
//!      └──▶ ComingSoon("LICHESS")
//!
//! It performs no I/O of its own: touch comes in as pixel taps, the screen's
//! content goes out as render options and menu labels, and history persistence
//! goes through a [`HistoryStore`] the caller supplies.

use vstd::prelude::*;

use crate::board::{PieceStyle, RenderOptions};
use crate::game::{move_outcome, spec_status, Game, Status};
use crate::history::{
    clock_room, keep_recent, label_text, rebuilt, saved_record, History, HistoryStore, NullStore,
    SavedGame,
};
use crate::layout::{
    bar_fits, bar_rects, board_geometry, cell_of, first_control, hit_at, lemma_hit_at_square,
    rect_contains, Control, HitTarget,
};
use crate::menu::{lemma_menu_pick, menu_fits, menu_item, menu_pick, MenuLayout};
use crate::move_order::legal_list;
use crate::moves::{Move, MoveFlag};
use crate::rules::{in_check, piece_on};
use crate::text::{decimal_text, push_decimal};
use crate::types::{Color, PieceKind, Square};

verus! {

/// Which screen is showing.
#[derive(Clone, Copy)]
pub enum Screen {
    MainMenu,
    LocalMenu,
    History,
    ComingSoon(&'static str),
    Game,
}

/// Everything the application holds but the game itself.
pub struct AppState<S> {
    pub screen: Screen,
    pub selected: Option<Square>,
    pub orient: Color,
    pub style: PieceStyle,
    pub width: u32,
    pub height: u32,
    pub quit: bool,
    pub history: Seq<(Seq<char>, Seq<Move>)>,
    pub store: S,
}

/// The interactive application state.
pub struct App<S: HistoryStore> {
    screen: Screen,
    game: Game,
    selected: Option<Square>,
    orient: Color,
    style: PieceStyle,
    width: u32,
    height: u32,
    quit: bool,
    history: History,
    store: S,
}

impl<S: HistoryStore> View for App<S> {
    type V = AppState<S>;

    closed spec fn view(&self) -> AppState<S> {
        AppState {
            screen: self.screen,
            selected: self.selected,
            orient: self.orient,
            style: self.style,
            width: self.width,
            height: self.height,
            quit: self.quit,
            history: self.history@,
            store: self.store,
        }
    }
}

/// Two games agree on positions, moves and the viewed ply.
pub open spec fn same_game(a: Game, b: Game) -> bool {
    &&& a.positions() == b.positions()
    &&& a.played() == b.played()
    &&& a.cursor_index() == b.cursor_index()
}

/// `b` is `a` viewed at ply `ply`.
pub open spec fn viewed_at(a: Game, b: Game, ply: int) -> bool {
    &&& b.wf()
    &&& b.positions() == a.positions()
    &&& b.played() == a.played()
    &&& b.cursor_index() == ply
}

/// The game is viewed at its live position.
pub open spec fn at_live(g: Game) -> bool {
    g.cursor_index() == g.positions().len() - 1
}

/// A history after recording `rec` at the front, as [`History::add`] does.
pub open spec fn history_with(h: Seq<(Seq<char>, Seq<Move>)>, rec: (Seq<char>, Seq<Move>)) -> Seq<
    (Seq<char>, Seq<Move>),
> {
    if rec.1.len() == 0 || (h.len() > 0 && h[0] == rec) {
        h
    } else {
        keep_recent(seq![rec] + h)
    }
}

/// A history after saving the game `g`, which only happens once a move is played.
pub open spec fn history_saving(h: Seq<(Seq<char>, Seq<Move>)>, g: Game) -> Seq<(Seq<char>, Seq<Move>)> {
    if g.played().len() > 0 {
        history_with(h, saved_record(g))
    } else {
        h
    }
}

/// Playing the request `req` in `g` gives `g2`: as [`Game::make_move`] plays
/// it when the move number leaves room for a move, else nothing changes.
pub open spec fn played_request(g: Game, req: Move, g2: Game) -> bool {
    &&& g2.wf()
    &&& if clock_room(g.live()) {
        &&& move_outcome(g.positions(), g.played(), req, g2.positions(), g2.played())
        &&& g2.played().len() > g.played().len() ==> at_live(g2)
        &&& g2.played().len() == g.played().len() ==> g2.cursor_index() == g.cursor_index()
    } else {
        same_game(g, g2)
    }
}

/// The piece on `sq` in the live position belongs to the side to move and has
/// a legal move.
pub open spec fn selectable(g: Game, sq: Square) -> bool {
    let pos = g.live();
    &&& match piece_on(pos.board(), sq) {
        Some(p) => p.color == pos.side_to_move,
        None => false,
    }
    &&& exists|m: Move| pos.is_legal(m) && m.from == sq
}

/// Some legal move of the live position goes from `from` to `to`.
pub open spec fn can_move(g: Game, from: Square, to: Square) -> bool {
    exists|m: Move| g.live().is_legal(m) && m.from == from && m.to == to
}

/// Some legal move of the live position goes from `from` to `to` and promotes.
pub open spec fn can_promote(g: Game, from: Square, to: Square) -> bool {
    exists|m: Move| g.live().is_legal(m) && m.from == from && m.to == to && m.promotion is Some
}

/// The move a tap from `from` to `to` requests: none unless some legal move
/// goes there, and a promotion to a queen when the move promotes.
pub open spec fn tap_request(g: Game, from: Square, to: Square) -> Option<Move> {
    if can_move(g, from, to) {
        Some(
            Move {
                from,
                to,
                promotion: if can_promote(g, from, to) {
                    Some(PieceKind::Queen)
                } else {
                    None
                },
                flag: MoveFlag::Normal,
            },
        )
    } else {
        None
    }
}

/// A board tap on `sq` looks at the piece there: on the board screen, at the
/// live position of a game still going, unless it repeats the selection.
pub open spec fn tap_reads_square<S>(s: AppState<S>, g: Game, sq: Square) -> bool {
    &&& s.screen is Game
    &&& at_live(g)
    &&& spec_status(g.positions()) == Status::Ongoing
    &&& s.selected != Some(sq)
}

/// What a tap on the square `sq` does to the state `s` and game `g`, giving
/// `s2`, `g2` and whether to redraw.
pub open spec fn tap_effect<S>(s: AppState<S>, g: Game, sq: Square, s2: AppState<S>, g2: Game, redraw: bool) -> bool {
    if !(s.screen is Game) {
        !redraw && s2 == s && g2 == g
    } else if !at_live(g) {
        // Reviewing history: a board tap returns to the live game.
        redraw && s2 == (AppState { selected: None, ..s }) && viewed_at(g, g2, g.positions().len() - 1)
    } else if spec_status(g.positions()) != Status::Ongoing {
        !redraw && s2 == s && g2 == g
    } else {
        match s.selected {
            None => if selectable(g, sq) {
                redraw && s2 == (AppState { selected: Some(sq), ..s }) && g2 == g
            } else {
                !redraw && s2 == s && g2 == g
            },
            Some(from) => if sq == from {
                redraw && s2 == (AppState { selected: None, ..s }) && g2 == g
            } else {
                match tap_request(g, from, sq) {
                    Some(req) => redraw && s2 == (AppState { selected: None, ..s }) && played_request(g, req, g2),
                    None => if selectable(g, sq) {
                        redraw && s2 == (AppState { selected: Some(sq), ..s }) && g2 == g
                    } else {
                        redraw && s2 == (AppState { selected: None, ..s }) && g2 == g
                    },
                }
            },
        }
    }
}

/// What pressing the control `ctrl` does to the state `s` and game `g`,
/// giving `s2`, `g2` and whether to redraw.
pub open spec fn press_effect<S>(s: AppState<S>, g: Game, ctrl: Control, s2: AppState<S>, g2: Game, redraw: bool) -> bool {
    match ctrl {
        Control::First => redraw && viewed_at(g, g2, 0) && s2 == (AppState { selected: None, ..s }),
        Control::Prev => {
            &&& redraw == (g.cursor_index() > 0)
            &&& viewed_at(g, g2, if redraw { g.cursor_index() - 1 } else { g.cursor_index() })
            &&& s2 == (if redraw { AppState { selected: None, ..s } } else { s })
        },
        Control::Next => {
            &&& redraw == !at_live(g)
            &&& viewed_at(g, g2, if redraw { g.cursor_index() + 1 } else { g.cursor_index() })
            &&& s2 == (if redraw { AppState { selected: None, ..s } } else { s })
        },
        Control::Live => {
            &&& redraw == !at_live(g)
            &&& viewed_at(g, g2, g.positions().len() - 1)
            &&& s2 == (if redraw { AppState { selected: None, ..s } } else { s })
        },
        Control::Flip => redraw && g2 == g && s2 == (AppState { orient: s.orient.spec_opponent(), ..s }),
        Control::New => {
            &&& redraw
            &&& g2.fresh()
            &&& s2 == (AppState {
                selected: None,
                orient: Color::White,
                history: history_saving(s.history, g),
                ..s
            })
        },
        Control::Quit => {
            &&& redraw
            &&& g2 == g
            &&& s2 == (AppState { quit: true, history: history_saving(s.history, g), ..s })
        },
    }
}

/// The name of a side in status lines.
pub open spec fn side_word(c: Color) -> Seq<char> {
    match c {
        Color::White => "WHITE"@,
        Color::Black => "BLACK"@,
    }
}

/// The footer line of the board screen: the viewed ply while reviewing,
/// else whose turn it is (and a check), or the result.
pub open spec fn status_line_text(g: Game) -> Seq<char> {
    if !at_live(g) {
        "VIEWING "@ + decimal_text(g.cursor_index() as nat) + "/"@ + decimal_text(g.played().len())
    } else {
        match spec_status(g.positions()) {
            Status::Ongoing => side_word(g.live().side_to_move) + " TO MOVE"@ + (if in_check(
                g.live().board(),
                g.live().side_to_move,
            ) {
                " - CHECK"@
            } else {
                ""@
            }),
            Status::Checkmate { winner } => "CHECKMATE - "@ + side_word(winner) + " WINS"@,
            Status::Stalemate => "DRAW - STALEMATE"@,
            Status::FiftyMoveRule => "DRAW - 50 MOVE RULE"@,
            Status::ThreefoldRepetition => "DRAW - REPETITION"@,
            Status::InsufficientMaterial => "DRAW - INSUFFICIENT"@,
        }
    }
}

/// The squares the moves of `ms` from `from` go to, each once, in the order
/// they are first reached.
pub open spec fn first_dests(ms: Seq<Move>, from: Square) -> Seq<Square>
    decreases ms.len(),
{
    if ms.len() == 0 {
        Seq::empty()
    } else {
        let before = first_dests(ms.drop_last(), from);
        let m = ms.last();
        if m.from == from && !before.contains(m.to) {
            before.push(m.to)
        } else {
            before
        }
    }
}

/// `t` lists, once each, the squares a legal move of the live position takes
/// the selected piece to, in the order the moves are generated; nothing when
/// no piece is selected or while reviewing.
pub open spec fn targets_of(sel: Option<Square>, g: Game, t: Seq<Square>) -> bool {
    match sel {
        Some(from) => if at_live(g) {
            &&& t == first_dests(legal_list(g.live()), from)
            &&& t.no_duplicates()
            &&& forall|sq: Square| #[trigger] t.contains(sq) <==> can_move(g, from, sq)
        } else {
            t.len() == 0
        },
        None => t.len() == 0,
    }
}

/// Title of the menu showing in `s`.
pub open spec fn menu_title<S>(s: AppState<S>) -> Seq<char> {
    match s.screen {
        Screen::MainMenu => "CHESSKOM"@,
        Screen::LocalMenu => "LOCAL"@,
        Screen::History => "HISTORY"@,
        Screen::ComingSoon(name) => name@,
        Screen::Game => "CHESSKOM"@,
    }
}

/// Number of items on the menu showing in `s` (none on the board screen).
pub open spec fn menu_len<S>(s: AppState<S>) -> nat {
    match s.screen {
        Screen::MainMenu => 4,
        Screen::LocalMenu => 3,
        Screen::History => if s.history.len() == 0 {
            2
        } else {
            s.history.len() + 1
        },
        Screen::ComingSoon(_) => 2,
        Screen::Game => 0,
    }
}

/// `l` is the label of item `i` on the menu showing in `s`; a saved game is
/// listed as its number in the list (from 1), a dot and its own label.
pub open spec fn menu_label<S>(s: AppState<S>, i: int, l: Seq<char>) -> bool {
    match s.screen {
        Screen::MainMenu => l == seq!["LOCAL"@, "CHESS.COM"@, "LICHESS"@, "QUIT"@][i],
        Screen::LocalMenu => l == seq!["NEW GAME"@, "GAME HISTORY"@, "BACK"@][i],
        Screen::History => if s.history.len() == 0 {
            l == seq!["(NO SAVED GAMES)"@, "BACK"@][i]
        } else if i < s.history.len() {
            exists|g: Game|
                rebuilt(s.history[i].0, s.history[i].1, g) && l == decimal_text((i + 1) as nat)
                    + ". "@ + label_text(s.history[i].1.len(), spec_status(g.positions()))
        } else {
            l == "BACK"@
        },
        Screen::ComingSoon(_) => l == seq!["COMING SOON"@, "BACK"@][i],
        Screen::Game => false,
    }
}

/// `g` is the saved game `rec` rebuilt and viewed from its first position.
pub open spec fn replay_of(rec: (Seq<char>, Seq<Move>), g: Game) -> bool {
    &&& g.wf()
    &&& crate::history::saved_start(rec.0, g.positions()[0])
    &&& crate::history::replays(seq![g.positions()[0]], Seq::empty(), rec.1, g.positions(), g.played())
    &&& g.cursor_index() == 0
}

/// What choosing item `i` of the menu showing in `s` does, giving `s2`, `g2`
/// and whether to redraw.
pub open spec fn menu_effect<S>(s: AppState<S>, g: Game, i: int, s2: AppState<S>, g2: Game, redraw: bool) -> bool {
    let unchanged = !redraw && s2 == s && g2 == g;
    match s.screen {
        Screen::MainMenu => if i == 0 {
            redraw && s2 == (AppState { screen: Screen::LocalMenu, ..s }) && g2 == g
        } else if i == 1 {
            redraw && s2 == (AppState { screen: Screen::ComingSoon("CHESS.COM"), ..s }) && g2 == g
        } else if i == 2 {
            redraw && s2 == (AppState { screen: Screen::ComingSoon("LICHESS"), ..s }) && g2 == g
        } else if i == 3 {
            redraw && s2 == (AppState { quit: true, ..s }) && g2 == g
        } else {
            unchanged
        },
        Screen::LocalMenu => if i == 0 {
            &&& redraw
            &&& g2.fresh()
            &&& s2 == (AppState {
                screen: Screen::Game,
                selected: None,
                orient: Color::White,
                history: history_saving(s.history, g),
                ..s
            })
        } else if i == 1 {
            redraw && s2 == (AppState { screen: Screen::History, ..s }) && g2 == g
        } else if i == 2 {
            redraw && s2 == (AppState { screen: Screen::MainMenu, ..s }) && g2 == g
        } else {
            unchanged
        },
        Screen::History => if s.history.len() == 0 {
            if i == 1 {
                redraw && s2 == (AppState { screen: Screen::LocalMenu, ..s }) && g2 == g
            } else {
                unchanged
            }
        } else if 0 <= i < s.history.len() {
            &&& redraw
            &&& replay_of(s.history[i], g2)
            &&& s2 == (AppState { screen: Screen::Game, selected: None, orient: Color::White, ..s })
        } else if i == s.history.len() {
            redraw && s2 == (AppState { screen: Screen::LocalMenu, ..s }) && g2 == g
        } else {
            unchanged
        },
        Screen::ComingSoon(_) => if i == 1 {
            redraw && s2 == (AppState { screen: Screen::MainMenu, ..s }) && g2 == g
        } else {
            unchanged
        },
        Screen::Game => unchanged,
    }
}

/// The board of the board screen fits in pixel coordinates.
pub open spec fn board_screen_fits(width: int, height: int) -> bool {
    let geo = board_geometry(width, true, true);
    &&& bar_fits(width, height)
    &&& geo.0 + 8 * geo.2 <= u32::MAX
    &&& geo.1 + 8 * geo.2 <= u32::MAX
}

/// What a tap on the pixel (x, y) does: on the board screen it goes to the
/// control or square under it, on a menu to the item under it.
pub open spec fn tap_pixel_effect<S>(s: AppState<S>, g: Game, x: int, y: int, s2: AppState<S>, g2: Game, redraw: bool) -> bool {
    if s.screen is Game {
        let geo = board_geometry(s.width as int, true, true);
        match hit_at(
            bar_rects(s.width as int, s.height as int, (s.width / 24) as int),
            s.orient,
            geo.0,
            geo.1,
            geo.2,
            8 * geo.2,
            x,
            y,
        ) {
            Some(HitTarget::Square(sq)) => tap_effect(s, g, sq, s2, g2, redraw),
            Some(HitTarget::Button(c)) => press_effect(s, g, c, s2, g2, redraw),
            None => !redraw && s2 == s && g2 == g,
        }
    } else {
        match menu_pick(s.width as int, s.height as int, (menu_len(s) as u32) as int, x, y, 0) {
            Some(i) => menu_effect(s, g, i, s2, g2, redraw),
            None => !redraw && s2 == s && g2 == g,
        }
    }
}

/// On the board screen, a tap on a pixel inside a square's cell that no
/// control button covers does what a tap on that square does.
pub proof fn law_tap_pixel_is_tap_square<S>(
    s: AppState<S>,
    g: Game,
    sq: Square,
    x: int,
    y: int,
    s2: AppState<S>,
    g2: Game,
    redraw: bool,
)
    requires
        s.screen is Game,
        sq.valid(),
        ({
            let geo = board_geometry(s.width as int, true, true);
            let cell = cell_of(s.orient, sq.spec_file(), sq.spec_rank());
            &&& geo.0 + cell.0 * geo.2 <= x < geo.0 + cell.0 * geo.2 + geo.2
            &&& geo.1 + cell.1 * geo.2 <= y < geo.1 + cell.1 * geo.2 + geo.2
        }),
        first_control(bar_rects(s.width as int, s.height as int, (s.width / 24) as int), x, y) is None,
        tap_pixel_effect(s, g, x, y, s2, g2, redraw),
    ensures
        tap_effect(s, g, sq, s2, g2, redraw),
{
    let geo = board_geometry(s.width as int, true, true);
    lemma_hit_at_square(
        bar_rects(s.width as int, s.height as int, (s.width / 24) as int),
        s.orient,
        geo.0,
        geo.1,
        geo.2,
        sq,
        x,
        y,
    );
}

impl<S: HistoryStore> App<S> {
    /// The game being played or replayed.
    pub closed spec fn spec_game(&self) -> Game {
        self.game
    }

    /// The game record is consistent.
    pub closed spec fn wf(&self) -> bool {
        self.game.wf()
    }

    /// Build an app with a specific screen size and history store; the history
    /// is what the store loads.
    pub fn with_store(width: u32, height: u32, store: S) -> (a: App<S>)
        ensures
            a.wf(),
            a.spec_game().fresh(),
            a@.screen is MainMenu,
            a@.selected is None,
            a@.orient == Color::White,
            a@.style == PieceStyle::Classic,
            a@.width == width,
            a@.height == height,
            !a@.quit,
            a@.store == store,
    {
        let history = store.load();
        App {
            screen: Screen::MainMenu,
            game: Game::new(),
            selected: None,
            orient: Color::White,
            style: PieceStyle::Classic,
            width,
            height,
            quit: false,
            history,
            store,
        }
    }

    pub fn should_quit(&self) -> (b: bool)
        ensures
            b == self@.quit,
    {
        self.quit
    }

    pub fn game(&self) -> (g: &Game)
        requires
            self.wf(),
        ensures
            *g == self.spec_game(),
            g.wf(),
    {
        &self.game
    }

    pub fn selected(&self) -> (s: Option<Square>)
        ensures
            s == self@.selected,
    {
        self.selected
    }

    pub fn orientation(&self) -> (c: Color)
        ensures
            c == self@.orient,
    {
        self.orient
    }

    pub fn history(&self) -> (h: &History)
        ensures
            h@ == self@.history,
    {
        &self.history
    }

    /// True when a board (play/replay) is showing rather than a menu.
    pub fn in_game(&self) -> (b: bool)
        ensures
            b == (self@.screen is Game),
    {
        matches!(self.screen, Screen::Game)
    }

    /// Replace the current game and show the board (e.g. to load a position).
    pub fn set_game(&mut self, game: Game)
        requires
            game.wf(),
        ensures
            final(self).wf(),
            final(self).spec_game() == game,
            final(self)@ == (AppState { screen: Screen::Game, selected: None, ..old(self)@ }),
    {
        self.game = game;
        self.selected = None;
        self.screen = Screen::Game;
    }

    /// Start a fresh local game and switch to the board, saving the game
    /// played so far.
    pub fn start_new_local_game(&mut self)
        requires
            old(self).wf(),
        ensures
            final(self).wf(),
            final(self).spec_game().fresh(),
            final(self)@ == (AppState {
                screen: Screen::Game,
                selected: None,
                orient: Color::White,
                history: history_saving(old(self)@.history, old(self).spec_game()),
                ..old(self)@
            }),
    {
        self.save_current_game();
        self.game = Game::new();
        self.selected = None;
        self.orient = Color::White;
        self.screen = Screen::Game;
    }

    /// Push the current game into history (if it has moves) and persist.
    fn save_current_game(&mut self)
        requires
            old(self).wf(),
        ensures
            final(self).wf(),
            final(self).spec_game() == old(self).spec_game(),
            final(self)@ == (AppState {
                history: history_saving(old(self)@.history, old(self).spec_game()),
                ..old(self)@
            }),
    {
        if self.game.ply() > 0 {
            let saved = SavedGame::from_game(&self.game);
            assert(saved@ == saved_record(self.game));
            self.history.add(saved);
            self.store.save(&self.history);
        }
    }

    /// Handle a tap on a board square (game screen only). Returns true if the
    /// display should redraw. A move of Black's when the move number is at its
    /// limit is not played.
    pub fn tap_square(&mut self, sq: Square) -> (redraw: bool)
        requires
            old(self).wf(),
            tap_reads_square(old(self)@, old(self).spec_game(), sq) ==> sq.valid(),
        ensures
            final(self).wf(),
            tap_effect(old(self)@, old(self).spec_game(), sq, final(self)@, final(self).spec_game(), redraw),
    {
        if !matches!(self.screen, Screen::Game) {
            return false;
        }
        // Reviewing history: a board tap returns to the live game.
        if !self.game.is_at_live() {
            self.game.forward_to_live();
            self.selected = None;
            return true;
        }
        if self.game.status().is_over() {
            return false;
        }
        match self.selected {
            None => {
                if self.is_selectable(sq) {
                    self.selected = Some(sq);
                    true
                } else {
                    false
                }
            },
            Some(from) => {
                if sq == from {
                    self.selected = None;
                    return true;
                }
                if let Some(promo) = self.move_to(from, sq) {
                    let mv = Move { from, to: sq, promotion: promo, flag: MoveFlag::Normal };
                    let pos = self.game.current();
                    if pos.side_to_move != Color::Black || pos.fullmove_number < u32::MAX {
                        let _ = self.game.make_move(mv);
                    }
                    self.selected = None;
                    return true;
                }
                let pos = self.game.current();
                let own = match pos.piece_at(sq) {
                    Some(p) => p.color == pos.side_to_move,
                    None => false,
                };
                if own && self.is_selectable(sq) {
                    self.selected = Some(sq);
                    return true;
                }
                self.selected = None;
                true
            },
        }
    }

    fn is_selectable(&self, sq: Square) -> (b: bool)
        requires
            self.wf(),
            sq.valid(),
        ensures
            b == selectable(self.game, sq),
    {
        let pos = self.game.current();
        match pos.piece_at(sq) {
            Some(p) => {
                if p.color != pos.side_to_move {
                    return false;
                }
                let moves = pos.legal_moves();
                let mut i: usize = 0;
                while i < moves.len()
                    invariant
                        0 <= i <= moves@.len(),
                        *pos == self.game.live(),
                        piece_on(pos.board(), sq) == Some(p),
                        p.color == pos.side_to_move,
                        forall|m: Move| #[trigger] moves@.contains(m) <==> pos.is_legal(m),
                        forall|j: int| 0 <= j < i ==> (#[trigger] moves@[j]).from != sq,
                    decreases moves@.len() - i,
                {
                    if moves[i].from == sq {
                        assert(moves@.contains(moves@[i as int]));
                        assert(pos.is_legal(moves@[i as int]) && moves@[i as int].from == sq);
                        return true;
                    }
                    i = i + 1;
                }
                assert forall|m: Move| pos.is_legal(m) implies m.from != sq by {
                    assert(moves@.contains(m));
                }
                false
            },
            None => false,
        }
    }

    /// If moving `from`→`to` is legal, the promotion to use (a queen when the
    /// move promotes); `None` if illegal.
    fn move_to(&self, from: Square, to: Square) -> (r: Option<Option<PieceKind>>)
        requires
            self.wf(),
        ensures
            r == (match tap_request(self.game, from, to) {
                Some(req) => Some(req.promotion),
                None => None,
            }),
    {
        let pos = self.game.current();
        let moves = pos.legal_moves();
        let mut any = false;
        let mut promo = false;
        let mut i: usize = 0;
        while i < moves.len()
            invariant
                0 <= i <= moves@.len(),
                forall|m: Move| #[trigger] moves@.contains(m) <==> pos.is_legal(m),
                any == exists|j: int| 0 <= j < i && (#[trigger] moves@[j]).from == from && moves@[j].to == to,
                promo == exists|j: int|
                    0 <= j < i && (#[trigger] moves@[j]).from == from && moves@[j].to == to && moves@[j].promotion is Some,
            decreases moves@.len() - i,
        {
            let m = moves[i];
            if m.from == from && m.to == to {
                any = true;
                if m.promotion.is_some() {
                    promo = true;
                }
            }
            i = i + 1;
        }
        proof {
            if any {
                let j = choose|j: int| 0 <= j < moves@.len() && (#[trigger] moves@[j]).from == from && moves@[j].to == to;
                assert(moves@.contains(moves@[j]));
            }
            if can_move(self.game, from, to) {
                let m = choose|m: Move| pos.is_legal(m) && m.from == from && m.to == to;
                assert(moves@.contains(m));
            }
            if promo {
                let j = choose|j: int|
                    0 <= j < moves@.len() && (#[trigger] moves@[j]).from == from && moves@[j].to == to
                        && moves@[j].promotion is Some;
                assert(moves@.contains(moves@[j]));
            }
            if can_promote(self.game, from, to) {
                let m = choose|m: Move| pos.is_legal(m) && m.from == from && m.to == to && m.promotion is Some;
                assert(moves@.contains(m));
            }
        }
        if !any {
            return None;
        }
        Some(
            if promo {
                Some(PieceKind::Queen)
            } else {
                None
            },
        )
    }

    /// Render options for the board screen (also what taps are hit-tested against).
    pub fn render_options(&self) -> (o: RenderOptions)
        requires
            self.wf(),
        ensures
            o.width == self@.width,
            o.height == self@.height,
            o.orient == self@.orient,
            o.light_sq == 255,
            o.dark_sq == 168,
            o.bg == 255,
            o.coords,
            o.header matches Some(h) && h@ == "CHESSKOM"@,
            o.footer matches Some(f) && f@ == status_line_text(self.spec_game()),
            o.highlight == (if self.spec_game().cursor_index() == 0 {
                None
            } else {
                Some(
                    (
                        self.spec_game().played()[self.spec_game().cursor_index() - 1].from,
                        self.spec_game().played()[self.spec_game().cursor_index() - 1].to,
                    ),
                )
            }),
            o.piece_style == self@.style,
            !o.over_the_board,
            o.controls,
            o.selected == self@.selected,
            targets_of(self@.selected, self.spec_game(), o.targets@),
    {
        let mut opts = RenderOptions::clara_bw();
        opts.width = self.width;
        opts.height = self.height;
        opts.orient = self.orient;
        opts.piece_style = self.style;
        opts.controls = true;
        opts.header = Some("CHESSKOM".to_owned());
        opts.footer = Some(self.status_text());
        opts.highlight = match self.game.viewed_last_move() {
            Some(m) => Some((m.from, m.to)),
            None => None,
        };
        opts.selected = self.selected;
        opts.targets = self.target_squares();
        opts
    }

    /// Destination squares of the selected piece, in the order the legal moves
    /// are generated.
    fn target_squares(&self) -> (t: Vec<Square>)
        requires
            self.wf(),
        ensures
            targets_of(self.selected, self.game, t@),
    {
        let from = match self.selected {
            Some(f) => f,
            None => {
                return Vec::new();
            },
        };
        if !self.game.is_at_live() {
            return Vec::new();
        }
        let moves = self.game.current().legal_moves();
        let ghost pos = self.game.live();
        let mut seen: Vec<Square> = Vec::new();
        let mut i: usize = 0;
        assert(moves@.take(0) =~= Seq::<Move>::empty());
        while i < moves.len()
            invariant
                0 <= i <= moves@.len(),
                forall|m: Move| #[trigger] moves@.contains(m) <==> pos.is_legal(m),
                pos == self.game.live(),
                seen@.no_duplicates(),
                forall|sq: Square|
                    #[trigger] seen@.contains(sq) <==> exists|j: int|
                        0 <= j < i && (#[trigger] moves@[j]).from == from && moves@[j].to == sq,
                seen@ == first_dests(moves@.take(i as int), from),
            decreases moves@.len() - i,
        {
            let m = moves[i];
            let ghost before_seen = seen@;
            proof {
                assert(moves@.take(i + 1).drop_last() =~= moves@.take(i as int));
                assert(moves@.take(i + 1).last() == m);
            }
            if m.from == from {
                let mut found = false;
                let mut k: usize = 0;
                while k < seen.len()
                    invariant
                        0 <= k <= seen@.len(),
                        found == exists|j: int| 0 <= j < k && seen@[j] == m.to,
                    decreases seen@.len() - k,
                {
                    if seen[k] == m.to {
                        found = true;
                    }
                    k = k + 1;
                }
                assert(found == seen@.contains(m.to)) by {
                    if seen@.contains(m.to) {
                        let q = choose|q: int| 0 <= q < seen@.len() && seen@[q] == m.to;
                    }
                }
                if !found {
                    let ghost before = seen@;
                    seen.push(m.to);
                    assert forall|sq: Square| #[trigger] seen@.contains(sq) <==> exists|j: int|
                        0 <= j < i + 1 && (#[trigger] moves@[j]).from == from && moves@[j].to == sq by {
                        if seen@.contains(sq) {
                            let q = choose|q: int| 0 <= q < seen@.len() && seen@[q] == sq;
                            if q == before.len() {
                                assert(moves@[i as int].from == from && moves@[i as int].to == sq);
                            } else {
                                assert(before.contains(sq));
                            }
                        }
                        if exists|j: int| 0 <= j < i + 1 && (#[trigger] moves@[j]).from == from && moves@[j].to == sq {
                            let j = choose|j: int| 0 <= j < i + 1 && (#[trigger] moves@[j]).from == from && moves@[j].to == sq;
                            if j == i {
                                assert(seen@[before.len() as int] == sq);
                            } else {
                                assert(before.contains(sq));
                                let q = choose|q: int| 0 <= q < before.len() && before[q] == sq;
                                assert(seen@[q] == sq);
                            }
                        }
                    }
                } else {
                    assert forall|sq: Square| #[trigger] seen@.contains(sq) <==> exists|j: int|
                        0 <= j < i + 1 && (#[trigger] moves@[j]).from == from && moves@[j].to == sq by {
                        if exists|j: int| 0 <= j < i + 1 && (#[trigger] moves@[j]).from == from && moves@[j].to == sq {
                            let j = choose|j: int| 0 <= j < i + 1 && (#[trigger] moves@[j]).from == from && moves@[j].to == sq;
                            if j == i {
                                let q = choose|q: int| 0 <= q < seen@.len() && seen@[q] == m.to;
                                assert(seen@[q] == sq);
                            }
                        }
                    }
                }
            }
            assert(seen@ == first_dests(moves@.take(i + 1), from));
            i = i + 1;
        }
        assert(moves@.take(moves@.len() as int) =~= moves@);
        assert forall|sq: Square| #[trigger] seen@.contains(sq) <==> can_move(self.game, from, sq) by {
            if seen@.contains(sq) {
                let j = choose|j: int| 0 <= j < moves@.len() && (#[trigger] moves@[j]).from == from && moves@[j].to == sq;
                assert(moves@.contains(moves@[j]));
                assert(pos.is_legal(moves@[j]));
            }
            if can_move(self.game, from, sq) {
                let m = choose|m: Move| pos.is_legal(m) && m.from == from && m.to == sq;
                assert(moves@.contains(m));
                let j = choose|j: int| 0 <= j < moves@.len() && moves@[j] == m;
                assert(moves@[j].from == from && moves@[j].to == sq);
            }
        }
        seen
    }

    /// The footer line of the board screen.
    fn status_text(&self) -> (t: String)
        requires
            self.wf(),
        ensures
            t@ == status_line_text(self.game),
    {
        let mut out = String::new();
        if !self.game.is_at_live() {
            out.append("VIEWING ");
            push_decimal(&mut out, self.game.viewed_ply() as u64);
            out.append("/");
            push_decimal(&mut out, self.game.ply() as u64);
            return out;
        }
        match self.game.status() {
            Status::Ongoing => {
                let side = match self.game.current().side_to_move {
                    Color::White => "WHITE",
                    Color::Black => "BLACK",
                };
                out.append(side);
                out.append(" TO MOVE");
                if self.game.current().is_in_check() {
                    out.append(" - CHECK");
                } else {
                    proof {
                        reveal_strlit("");
                    }
                    assert(out@ =~= out@ + ""@);
                }
            },
            Status::Checkmate { winner } => {
                let w = match winner {
                    Color::White => "WHITE",
                    Color::Black => "BLACK",
                };
                out.append("CHECKMATE - ");
                out.append(w);
                out.append(" WINS");
            },
            Status::Stalemate => out.append("DRAW - STALEMATE"),
            Status::FiftyMoveRule => out.append("DRAW - 50 MOVE RULE"),
            Status::ThreefoldRepetition => out.append("DRAW - REPETITION"),
            Status::InsufficientMaterial => out.append("DRAW - INSUFFICIENT"),
        }
        out
    }

    /// Handle selecting item `i` on the current menu screen.
    fn on_menu_select(&mut self, i: usize) -> (redraw: bool)
        requires
            old(self).wf(),
        ensures
            final(self).wf(),
            menu_effect(old(self)@, old(self).spec_game(), i as int, final(self)@, final(self).spec_game(), redraw),
    {
        match self.screen {
            Screen::MainMenu => {
                if i == 0 {
                    self.screen = Screen::LocalMenu;
                } else if i == 1 {
                    self.screen = Screen::ComingSoon("CHESS.COM");
                } else if i == 2 {
                    self.screen = Screen::ComingSoon("LICHESS");
                } else if i == 3 {
                    self.quit = true;
                } else {
                    return false;
                }
                true
            },
            Screen::LocalMenu => {
                if i == 0 {
                    self.start_new_local_game();
                } else if i == 1 {
                    self.screen = Screen::History;
                } else if i == 2 {
                    self.screen = Screen::MainMenu;
                } else {
                    return false;
                }
                true
            },
            Screen::History => {
                if self.history.is_empty() {
                    // Items: ["(NO SAVED GAMES)", "BACK"].
                    if i == 1 {
                        self.screen = Screen::LocalMenu;
                        return true;
                    }
                    return false;
                }
                let n = self.history.len();
                if i < n {
                    // Replay: load the game and start at its beginning.
                    assert(self.history.games@[i as int]@ == self.history@[i as int]);
                    self.game = self.history.games[i].to_game();
                    self.game.rewind_to_start();
                    self.selected = None;
                    self.orient = Color::White;
                    self.screen = Screen::Game;
                    true
                } else if i == n {
                    self.screen = Screen::LocalMenu;
                    true
                } else {
                    false
                }
            },
            Screen::ComingSoon(_) => {
                // Items: ["COMING SOON", "BACK"].
                if i == 1 {
                    self.screen = Screen::MainMenu;
                    return true;
                }
                false
            },
            Screen::Game => false,
        }
    }

    /// Title and item labels for the current menu screen.
    pub fn menu_spec(&self) -> (r: (String, Vec<String>))
        ensures
            r.0@ == menu_title(self@),
            r.1@.len() == menu_len(self@),
            forall|i: int| 0 <= i < r.1@.len() ==> menu_label(self@, i, #[trigger] r.1@[i]@),
    {
        match self.screen {
            Screen::MainMenu => (
                "CHESSKOM".to_owned(),
                vec!["LOCAL".to_owned(), "CHESS.COM".to_owned(), "LICHESS".to_owned(), "QUIT".to_owned()],
            ),
            Screen::LocalMenu => (
                "LOCAL".to_owned(),
                vec!["NEW GAME".to_owned(), "GAME HISTORY".to_owned(), "BACK".to_owned()],
            ),
            Screen::History => {
                let title = "HISTORY".to_owned();
                if self.history.is_empty() {
                    (title, vec!["(NO SAVED GAMES)".to_owned(), "BACK".to_owned()])
                } else {
                    let mut labels: Vec<String> = Vec::new();
                    let mut i: usize = 0;
                    while i < self.history.games.len()
                        invariant
                            0 <= i <= self.history@.len(),
                            self.history@.len() > 0,
                            self@.screen is History,
                            labels@.len() == i,
                            forall|j: int| 0 <= j < i ==> menu_label(self@, j, #[trigger] labels@[j]@),
                        decreases self.history@.len() - i,
                    {
                        let sg = &self.history.games[i];
                        assert(sg@ == self.history@[i as int]);
                        let own = sg.label(i);
                        let mut lab = String::new();
                        push_decimal(&mut lab, (i as u64) + 1);
                        lab.append(". ");
                        lab.append(own.as_str());
                        proof {
                            let g = choose|g: Game|
                                rebuilt(sg.start_fen@, sg.moves@, g) && own@ == label_text(
                                    sg.moves@.len(),
                                    spec_status(g.positions()),
                                );
                            assert(rebuilt(self@.history[i as int].0, self@.history[i as int].1, g));
                            assert(lab@ =~= decimal_text((i + 1) as nat) + ". "@ + own@);
                            assert(menu_label(self@, i as int, lab@));
                        }
                        let ghost before = labels@;
                        labels.push(lab);
                        assert(forall|j: int| 0 <= j < i ==> labels@[j] == before[j]);
                        i = i + 1;
                    }
                    labels.push("BACK".to_owned());
                    (title, labels)
                }
            },
            Screen::ComingSoon(name) => (name.to_owned(), vec!["COMING SOON".to_owned(), "BACK".to_owned()]),
            Screen::Game => ("CHESSKOM".to_owned(), Vec::new()),
        }
    }

    /// Handle a tap at pixel (x, y). Returns true if the display should redraw.
    pub fn tap_pixel(&mut self, x: u32, y: u32) -> (redraw: bool)
        requires
            old(self).wf(),
            old(self)@.screen is Game ==> board_screen_fits(old(self)@.width as int, old(self)@.height as int),
            !(old(self)@.screen is Game) ==> menu_fits(
                old(self)@.width as int,
                old(self)@.height as int,
                (menu_len(old(self)@) as u32) as int,
            ),
        ensures
            final(self).wf(),
            tap_pixel_effect(old(self)@, old(self).spec_game(), x as int, y as int, final(self)@, final(self).spec_game(), redraw),
    {
        match self.screen {
            Screen::Game => {
                let lay = self.render_options().layout();
                match lay.hit(x, y) {
                    Some(HitTarget::Square(sq)) => self.tap_square(sq),
                    Some(HitTarget::Button(c)) => self.press(c),
                    None => false,
                }
            },
            _ => {
                let (_, labels) = self.menu_spec();
                let ml = MenuLayout::new(self.width, self.height, labels.len());
                let hit = ml.hit(x, y);
                proof {
                    let n = (menu_len(self@) as u32) as int;
                    assert(ml.items@.len() == n);
                    match hit {
                        Some(j) => {
                            assert(ml.items@[j as int] == menu_item(self.width as int, self.height as int, n, j as int));
                            assert forall|q: int| 0 <= q < j implies !rect_contains(
                                #[trigger] menu_item(self.width as int, self.height as int, n, q),
                                x as int,
                                y as int,
                            ) by {
                                assert(ml.items@[q] == menu_item(self.width as int, self.height as int, n, q));
                            }
                            lemma_menu_pick(self.width as int, self.height as int, n, x as int, y as int, 0, Some(j as int));
                        },
                        None => {
                            assert forall|q: int| 0 <= q < n implies !rect_contains(
                                #[trigger] menu_item(self.width as int, self.height as int, n, q),
                                x as int,
                                y as int,
                            ) by {
                                assert(ml.items@[q] == menu_item(self.width as int, self.height as int, n, q));
                            }
                            lemma_menu_pick(self.width as int, self.height as int, n, x as int, y as int, 0, None);
                        },
                    }
                }
                match hit {
                    Some(i) => self.on_menu_select(i),
                    None => false,
                }
            },
        }
    }

    /// Handle a control-button press. Returns true if the display should redraw.
    pub fn press(&mut self, ctrl: Control) -> (redraw: bool)
        requires
            old(self).wf(),
        ensures
            final(self).wf(),
            press_effect(old(self)@, old(self).spec_game(), ctrl, final(self)@, final(self).spec_game(), redraw),
    {
        match ctrl {
            Control::First => {
                self.game.rewind_to_start();
                self.selected = None;
                true
            },
            Control::Prev => {
                let moved = self.game.step_back();
                if moved {
                    self.selected = None;
                }
                moved
            },
            Control::Next => {
                let moved = self.game.step_forward();
                if moved {
                    self.selected = None;
                }
                moved
            },
            Control::Live => {
                if self.game.is_at_live() {
                    false
                } else {
                    self.game.forward_to_live();
                    self.selected = None;
                    true
                }
            },
            Control::Flip => {
                self.orient = self.orient.opponent();
                true
            },
            Control::New => {
                self.save_current_game();
                self.game = Game::new();
                self.selected = None;
                self.orient = Color::White;
                true
            },
            Control::Quit => {
                self.save_current_game();
                self.quit = true;
                true
            },
        }
    }
}

impl App<NullStore> {
    /// Full-screen Clara BW app with no persistence (desktop/testing
    /// default), showing the board of a new game.
    pub fn clara_bw() -> (a: App<NullStore>)
        ensures
            a.wf(),
            a.spec_game().fresh(),
            a@ == (AppState {
                screen: Screen::Game,
                selected: None,
                orient: Color::White,
                style: PieceStyle::Classic,
                width: 1072,
                height: 1448,
                quit: false,
                history: Seq::empty(),
                store: NullStore,
            }),
    {
        let store = NullStore;
        let history = store.load();
        App {
            screen: Screen::Game,
            game: Game::new(),
            selected: None,
            orient: Color::White,
            style: PieceStyle::Classic,
            width: 1072,
            height: 1448,
            quit: false,
            history,
            store,
        }
    }
}

} // verus!
