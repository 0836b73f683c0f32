//! Saved-game history: keep the last few games' moves so they can be replayed.
//!
//! Only the starting FEN and the move list are stored per game — enough to
//! reconstruct the full game (and its result) by replaying it. Persistence is
//! behind [`HistoryStore`] so the application logic stays I/O-free.

use vstd::prelude::*;

use crate::fen::{fen_pos, parse_fen, spec_parse_fen, spec_to_fen, to_fen};
use crate::game::{move_outcome, spec_status, Game, Status};
use crate::moves::{spec_uci, Move, MoveFlag};
use crate::position::Position;
use crate::text::{
    lines_seq, push_char, push_decimal, split_lines, split_once_chars, split_once_seq, split_words,
    str_chars, string_from_chars, trim_chars, trim_seq, words, decimal_text,
};
use crate::types::{spec_square_from_algebraic, PieceKind, Square};

verus! {

/// How many games to retain (most-recent first).
pub const MAX_GAMES: usize = 10;

/// A replayable game: where it started and the moves played.
#[derive(Clone, Debug, PartialEq, Eq)]
pub struct SavedGame {
    pub start_fen: String,
    pub moves: Vec<Move>,
}

impl View for SavedGame {
    type V = (Seq<char>, Seq<Move>);

    open spec fn view(&self) -> (Seq<char>, Seq<Move>) {
        (self.start_fen@, self.moves@)
    }
}

/// A move as stored: its squares and promotion, with the flag reset to `Normal`
/// (the flag is re-derived on replay by matching against the legal moves).
pub open spec fn canonical(m: Move) -> Move {
    Move { from: m.from, to: m.to, promotion: m.promotion, flag: MoveFlag::Normal }
}

/// What a saved copy of `g` records: its starting FEN and its moves with the
/// flags reset.
pub open spec fn saved_record(g: Game) -> (Seq<char>, Seq<Move>) {
    (spec_to_fen(g.positions()[0]), g.played().map_values(|m: Move| canonical(m)))
}

/// The move number leaves room for one more move: it counts up after Black's move.
pub open spec fn clock_room(p: Position) -> bool {
    p.side_to_move == crate::types::Color::Black ==> p.fullmove_number < u32::MAX
}

/// One replay step of the request `req`: played as by [`Game::make_move`] when
/// the move number leaves room for it, skipped otherwise.
pub open spec fn replay_step(ps: Seq<Position>, ms: Seq<Move>, req: Move, ps2: Seq<Position>, ms2: Seq<Move>) -> bool {
    if clock_room(ps.last()) {
        move_outcome(ps, ms, req, ps2, ms2)
    } else {
        ps2 == ps && ms2 == ms
    }
}

/// `chain` records a replay of the requests `reqs`: one state (positions,
/// moves) before each request and one after the last, each state following
/// from the one before by [`replay_step`].
pub open spec fn replay_chain(chain: Seq<(Seq<Position>, Seq<Move>)>, reqs: Seq<Move>) -> bool {
    &&& chain.len() == reqs.len() + 1
    &&& forall|i: int|
        0 <= i < reqs.len() ==> replay_step(
            (#[trigger] chain[i]).0,
            chain[i].1,
            reqs[i],
            chain[i + 1].0,
            chain[i + 1].1,
        )
}

/// Replaying the requests `reqs` from positions `ps0` and moves `ms0` ends in `ps` and `ms`.
pub open spec fn replays(ps0: Seq<Position>, ms0: Seq<Move>, reqs: Seq<Move>, ps: Seq<Position>, ms: Seq<Move>) -> bool {
    exists|chain: Seq<(Seq<Position>, Seq<Move>)>|
        #[trigger] replay_chain(chain, reqs) && chain[0] == (ps0, ms0) && chain.last() == (ps, ms)
}

/// The position a saved game starts from: its FEN when that parses, else the
/// standard starting position.
pub open spec fn saved_start(fen: Seq<char>, p: Position) -> bool {
    match spec_parse_fen(fen) {
        Ok(fp) => fen_pos(p) == fp,
        Err(_) => {
            &&& p.board() == Seq::new(64, |i: int| crate::rules::start_piece(i))
            &&& p.side_to_move == crate::types::Color::White
            &&& p.castling == crate::rules::all_rights()
            &&& p.en_passant is None
            &&& p.halfmove_clock == 0
            &&& p.fullmove_number == 1
        },
    }
}

/// `g` is the game a saved game (`fen`, `reqs`) rebuilds: started as
/// [`saved_start`] says, the requests replayed in order, viewed at live.
pub open spec fn rebuilt(fen: Seq<char>, reqs: Seq<Move>, g: Game) -> bool {
    &&& g.wf()
    &&& saved_start(fen, g.positions()[0])
    &&& replays(seq![g.positions()[0]], Seq::empty(), reqs, g.positions(), g.played())
    &&& g.cursor_index() == g.positions().len() - 1
}

/// The result shown for a game status: `1-0`, `0-1`, `DRAW` or `UNFINISHED`.
pub open spec fn result_text(s: Status) -> Seq<char> {
    match s {
        Status::Checkmate { winner: crate::types::Color::White } => "1-0"@,
        Status::Checkmate { winner: crate::types::Color::Black } => "0-1"@,
        Status::Ongoing => "UNFINISHED"@,
        _ => "DRAW"@,
    }
}

/// The label of a saved game: `<full moves> MOVES  <result>`, where a full
/// move is two plies, the last one possibly unfinished.
pub open spec fn label_text(plies: nat, s: Status) -> Seq<char> {
    decimal_text((plies + 1) / 2) + " MOVES  "@ + result_text(s)
}

impl SavedGame {
    /// Record where `game` started and the moves played (flags reset to `Normal`).
    pub fn from_game(game: &Game) -> (s: SavedGame)
        requires
            game.wf(),
        ensures
            s.start_fen@ == spec_to_fen(game.positions()[0]),
            s.moves@ == game.played().map_values(|m: Move| canonical(m)),
    {
        let played = game.moves();
        let mut moves: Vec<Move> = Vec::new();
        let mut i: usize = 0;
        while i < played.len()
            invariant
                played@ == game.played(),
                0 <= i <= played@.len(),
                moves@ == played@.take(i as int).map_values(|m: Move| canonical(m)),
            decreases played@.len() - i,
        {
            let m = played[i];
            moves.push(Move { from: m.from, to: m.to, promotion: m.promotion, flag: MoveFlag::Normal });
            assert(moves@ =~= played@.take(i + 1).map_values(|m: Move| canonical(m)));
            i = i + 1;
        }
        assert(played@.take(played@.len() as int) =~= played@);
        SavedGame { start_fen: to_fen(game.initial()), moves }
    }

    /// Reconstruct a playable/reviewable `Game`, viewed at its live position.
    /// Moves that do not apply are ignored, as is a move of Black's when the
    /// move number is at its limit.
    pub fn to_game(&self) -> (g: Game)
        ensures
            rebuilt(self.start_fen@, self.moves@, g),
    {
        let pos = match parse_fen(self.start_fen.as_str()) {
            Ok(p) => p,
            Err(_) => Position::start(),
        };
        let mut game = Game::from_position(pos);
        let ghost p0 = game.positions();
        let ghost m0 = game.played();
        let mut i: usize = 0;
        let ghost mut chain: Seq<(Seq<Position>, Seq<Move>)> = seq![(p0, m0)];
        assert(replay_chain(chain, self.moves@.take(0)));
        while i < self.moves.len()
            invariant
                0 <= i <= self.moves@.len(),
                game.wf(),
                p0 == seq![pos],
                m0 == Seq::<Move>::empty(),
                game.positions()[0] == pos,
                game.cursor_index() == game.positions().len() - 1,
                replay_chain(chain, self.moves@.take(i as int)),
                chain[0] == (p0, m0),
                chain.last() == (game.positions(), game.played()),
            decreases self.moves@.len() - i,
        {
            let mv = self.moves[i];
            let ghost ps_before = game.positions();
            let ghost ms_before = game.played();
            let cur = game.current();
            if cur.side_to_move != crate::types::Color::Black || cur.fullmove_number < u32::MAX {
                // Saved sequences are legal; ignore any that somehow don't apply.
                let _ = game.make_move(mv);
            }
            proof {
                let reqs = self.moves@.take(i + 1);
                let old_chain = chain;
                chain = chain.push((game.positions(), game.played()));
                assert(replay_step(ps_before, ms_before, mv, game.positions(), game.played()));
                assert forall|k: int| 0 <= k < reqs.len() implies replay_step(
                    (#[trigger] chain[k]).0,
                    chain[k].1,
                    reqs[k],
                    chain[k + 1].0,
                    chain[k + 1].1,
                ) by {
                    if k < i {
                        assert(old_chain[k] == chain[k]);
                        assert(reqs[k] == self.moves@.take(i as int)[k]);
                    }
                }
                assert(game.positions()[0] == ps_before[0]);
            }
            i = i + 1;
        }
        assert(self.moves@.take(self.moves@.len() as int) =~= self.moves@);
        assert(replays(p0, m0, self.moves@, game.positions(), game.played()));
        assert(self.moves@.take(self.moves@.len() as int) =~= self.moves@);
        game
    }

    pub fn move_count(&self) -> (n: usize)
        ensures
            n == self.moves@.len(),
    {
        self.moves.len()
    }

    /// A short human label for the history list, e.g. "24 MOVES  1-0".
    /// The label does not depend on where the game stands in the list; the
    /// list numbers its entries itself.
    pub fn label(&self, _index: usize) -> (s: String)
        ensures
            exists|g: Game|
                rebuilt(self.start_fen@, self.moves@, g) && s@ == label_text(
                    self.moves@.len(),
                    spec_status(g.positions()),
                ),
    {
        let game = self.to_game();
        let status = game.status();
        let mut out = String::new();
        // Full moves = ceil(plies / 2).
        let n = self.moves.len() as u64;
        push_decimal(&mut out, n / 2 + n % 2);
        assert(n / 2 + n % 2 == (n + 1) / 2);
        out.append(" MOVES  ");
        let result = match status {
            Status::Checkmate { winner: crate::types::Color::White } => "1-0",
            Status::Checkmate { winner: crate::types::Color::Black } => "0-1",
            Status::Stalemate | Status::FiftyMoveRule | Status::ThreefoldRepetition
            | Status::InsufficientMaterial => "DRAW",
            Status::Ongoing => "UNFINISHED",
        };
        out.append(result);
        assert(out@ == label_text(self.moves@.len(), spec_status(game.positions())));
        out
    }
}

/// A stored move read back from coordinate text such as `e2e4` or `e7e8q`:
/// the first four characters (ASCII) name the squares, a fifth names the
/// promotion piece if it is a piece letter; the flag is `Normal`.
pub open spec fn parse_uci_spec(w: Seq<char>) -> Option<Move> {
    if w.len() < 4 || !((w[0] as u32) < 128 && (w[1] as u32) < 128 && (w[2] as u32) < 128 && (w[3] as u32)
        < 128) {
        None
    } else {
        match (spec_square_from_algebraic(w.subrange(0, 2)), spec_square_from_algebraic(w.subrange(2, 4))) {
            (Some(from), Some(to)) => Some(
                Move {
                    from,
                    to,
                    promotion: if w.len() > 4 {
                        PieceKind::spec_from_char(w[4])
                    } else {
                        None
                    },
                    flag: MoveFlag::Normal,
                },
            ),
            _ => None,
        }
    }
}

/// The moves read from the words `ws`, skipping words that are not moves.
pub open spec fn uci_moves(ws: Seq<Seq<char>>) -> Seq<Move>
    decreases ws.len(),
{
    if ws.len() == 0 {
        Seq::empty()
    } else {
        match parse_uci_spec(ws.last()) {
            Some(m) => uci_moves(ws.drop_last()).push(m),
            None => uci_moves(ws.drop_last()),
        }
    }
}

/// The saved game a line of the history text describes, if any:
/// `<start-fen>|<moves separated by whitespace>`, surrounding whitespace ignored.
pub open spec fn line_game(l: Seq<char>) -> Option<(Seq<char>, Seq<Move>)> {
    let t = trim_seq(l);
    if t.len() == 0 {
        None
    } else {
        match split_once_seq(t, '|') {
            Some((fen, rest)) => Some((fen, uci_moves(words(rest)))),
            None => None,
        }
    }
}

/// The saved games described by the lines `ls`, in order.
pub open spec fn line_games(ls: Seq<Seq<char>>) -> Seq<(Seq<char>, Seq<Move>)>
    decreases ls.len(),
{
    if ls.len() == 0 {
        Seq::empty()
    } else {
        match line_game(ls.last()) {
            Some(g) => line_games(ls.drop_last()).push(g),
            None => line_games(ls.drop_last()),
        }
    }
}

/// The first line of the history text.
pub open spec fn history_header() -> Seq<char> {
    "chesskom-history v1"@
}

/// At most the first `MAX_GAMES` of `gs`.
pub open spec fn keep_recent<T>(gs: Seq<T>) -> Seq<T> {
    if gs.len() > MAX_GAMES {
        gs.take(MAX_GAMES as int)
    } else {
        gs
    }
}

/// The games a history text describes: none unless the first line (trimmed)
/// is the header; then one per following line that describes a game, at most
/// `MAX_GAMES` of them.
pub open spec fn parse_history_spec(text: Seq<char>) -> Seq<(Seq<char>, Seq<Move>)> {
    let ls = lines_seq(text);
    if ls.len() == 0 || trim_seq(ls[0]) != history_header() {
        Seq::empty()
    } else {
        keep_recent(line_games(ls.skip(1)))
    }
}

/// The moves' coordinate texts separated by single spaces.
pub open spec fn joined_ucis(ms: Seq<Move>) -> Seq<char>
    decreases ms.len(),
{
    if ms.len() == 0 {
        Seq::empty()
    } else if ms.len() == 1 {
        spec_uci(ms[0])
    } else {
        joined_ucis(ms.drop_last()) + seq![' '] + spec_uci(ms.last())
    }
}

/// One line of the history text: `<start-fen>|<moves>` and a newline.
pub open spec fn game_line(g: (Seq<char>, Seq<Move>)) -> Seq<char> {
    g.0 + seq!['|'] + joined_ucis(g.1) + seq!['\n']
}

/// The game lines of `gs`, in order.
pub open spec fn game_lines(gs: Seq<(Seq<char>, Seq<Move>)>) -> Seq<char>
    decreases gs.len(),
{
    if gs.len() == 0 {
        Seq::empty()
    } else {
        game_lines(gs.drop_last()) + game_line(gs.last())
    }
}

/// The history text: the header line, then one line per game.
pub open spec fn history_text(gs: Seq<(Seq<char>, Seq<Move>)>) -> Seq<char> {
    history_header() + seq!['\n'] + game_lines(gs)
}

/// Parse a UCI coordinate move (`e2e4`, `e7e8q`). The flag is left `Normal`;
/// the game applies it by matching from/to/promotion.
fn parse_uci(s: &Vec<char>) -> (m: Option<Move>)
    ensures
        m == parse_uci_spec(s@),
{
    if s.len() < 4 {
        return None;
    }
    if !((s[0] as u32) < 128 && (s[1] as u32) < 128 && (s[2] as u32) < 128 && (s[3] as u32) < 128) {
        return None;
    }
    let a = string_from_chars(&crate::text::sub_chars(s, 0, 2));
    let b = string_from_chars(&crate::text::sub_chars(s, 2, 4));
    let from = match Square::from_algebraic(a.as_str()) {
        Some(q) => q,
        None => {
            return None;
        },
    };
    let to = match Square::from_algebraic(b.as_str()) {
        Some(q) => q,
        None => {
            return None;
        },
    };
    let promotion = if s.len() > 4 {
        PieceKind::from_char(s[4])
    } else {
        None
    };
    Some(Move { from, to, promotion, flag: MoveFlag::Normal })
}

/// The two saved games are the same: same start FEN and same moves.
fn same_saved(a: &SavedGame, b: &SavedGame) -> (r: bool)
    ensures
        r == (a@ == b@),
{
    if a.start_fen != b.start_fen {
        return false;
    }
    if a.moves.len() != b.moves.len() {
        assert(a@.1.len() != b@.1.len());
        return false;
    }
    let mut i: usize = 0;
    while i < a.moves.len()
        invariant
            a.moves@.len() == b.moves@.len(),
            0 <= i <= a.moves@.len(),
            forall|j: int| 0 <= j < i ==> a.moves@[j] == b.moves@[j],
        decreases a.moves@.len() - i,
    {
        let x = a.moves[i];
        let y = b.moves[i];
        if !(x.from == y.from && x.to == y.to && x.promotion == y.promotion && x.flag == y.flag) {
            return false;
        }
        i = i + 1;
    }
    assert(a.moves@ =~= b.moves@);
    true
}

/// The retained set of games, most-recent first.
#[derive(Clone, Debug, Default, PartialEq, Eq)]
pub struct History {
    pub games: Vec<SavedGame>,
}

impl View for History {
    type V = Seq<(Seq<char>, Seq<Move>)>;

    open spec fn view(&self) -> Seq<(Seq<char>, Seq<Move>)> {
        self.games@.map_values(|g: SavedGame| g@)
    }
}

impl History {
    pub fn new() -> (h: History)
        ensures
            h@ == Seq::<(Seq<char>, Seq<Move>)>::empty(),
    {
        let h = History { games: Vec::new() };
        assert(h@ =~= Seq::<(Seq<char>, Seq<Move>)>::empty());
        h
    }

    pub fn is_empty(&self) -> (b: bool)
        ensures
            b == (self@.len() == 0),
    {
        self.games.len() == 0
    }

    pub fn len(&self) -> (n: usize)
        ensures
            n == self@.len(),
    {
        self.games.len()
    }

    /// Record a game at the front, dropping the oldest beyond [`MAX_GAMES`].
    /// A no-op for games with no moves, or a duplicate of the most-recent entry.
    pub fn add(&mut self, game: SavedGame)
        ensures
            final(self)@ == (if game@.1.len() == 0 || (old(self)@.len() > 0 && old(self)@[0] == game@) {
                old(self)@
            } else {
                keep_recent(seq![game@] + old(self)@)
            }),
    {
        if game.moves.len() == 0 {
            return;
        }
        if self.games.len() > 0 && same_saved(&self.games[0], &game) {
            return;
        }
        let ghost before = self.games@;
        let ghost g = game@;
        self.games.insert(0, game);
        self.games.truncate(MAX_GAMES);
        assert(self@ =~= keep_recent(seq![g] + before.map_values(|x: SavedGame| x@)));
    }

    // ---- Serialization ----------------------------------------------------

    /// Serialize to a small text format: a header line, then one line per game
    /// as `<start-fen>|<uci moves space-separated>`.
    pub fn serialize(&self) -> (s: String)
        ensures
            s@ == history_text(self@),
    {
        let mut out = String::new();
        out.append("chesskom-history v1");
        push_char(&mut out, '\n');
        let mut i: usize = 0;
        while i < self.games.len()
            invariant
                0 <= i <= self.games@.len(),
                out@ == history_text(self@.take(i as int)),
            decreases self.games@.len() - i,
        {
            let g = &self.games[i];
            let ghost before = out@;
            out.append(g.start_fen.as_str());
            push_char(&mut out, '|');
            let mut j: usize = 0;
            while j < g.moves.len()
                invariant
                    0 <= j <= g.moves@.len(),
                    out@ == before + g.start_fen@ + seq!['|'] + joined_ucis(g.moves@.take(j as int)),
                decreases g.moves@.len() - j,
            {
                let ghost mid = out@;
                if j > 0 {
                    push_char(&mut out, ' ');
                }
                let u = g.moves[j].to_uci();
                out.append(u.as_str());
                assert(g.moves@.take(j + 1).drop_last() =~= g.moves@.take(j as int));
                if j == 0 {
                    assert(g.moves@.take(1) =~= seq![g.moves@[0]]);
                }
                assert(out@ =~= before + g.start_fen@ + seq!['|'] + joined_ucis(g.moves@.take(j + 1)));
                j = j + 1;
            }
            push_char(&mut out, '\n');
            assert(g.moves@.take(g.moves@.len() as int) =~= g.moves@);
            assert(self@.take(i + 1).drop_last() =~= self@.take(i as int));
            assert(out@ =~= history_text(self@.take(i + 1)));
            i = i + 1;
        }
        assert(self@.take(self@.len() as int) =~= self@);
        out
    }

    /// Parse the text format; unknown/empty input yields an empty history.
    pub fn parse(text: &str) -> (h: History)
        ensures
            h@ == parse_history_spec(text@),
    {
        let mut history = History::new();
        let chars = str_chars(text);
        let lines = split_lines(&chars);
        let ghost ls = lines_seq(text@);
        if lines.len() == 0 {
            return history;
        }
        let first = trim_chars(&lines[0]);
        let header = str_chars("chesskom-history v1");
        assert(lines[0]@ == ls[0]);
        let mut same = first.len() == header.len();
        if same {
            let mut k: usize = 0;
            while k < first.len()
                invariant
                    first@.len() == header@.len(),
                    0 <= k <= first@.len(),
                    same == forall|j: int| 0 <= j < k ==> first@[j] == header@[j],
                decreases first@.len() - k,
            {
                if first[k] != header[k] {
                    same = false;
                }
                k = k + 1;
            }
            if same {
                assert(first@ =~= header@);
            }
        }
        if !same {
            // missing/unknown header
            assert(first@ != header@) by {
                if first@ == header@ {
                    if first@.len() == header@.len() {
                        let j = choose|j: int| 0 <= j < first@.len() && first@[j] != header@[j];
                    }
                }
            }
            return history;
        }
        let mut i: usize = 1;
        let ghost rest = ls.skip(1);
        while i < lines.len()
            invariant
                lines.deep_view() == ls,
                ls == lines_seq(text@),
                rest == ls.skip(1),
                1 <= i <= ls.len(),
                history@ == line_games(rest.take(i - 1)),
            decreases ls.len() - i,
        {
            let line = trim_chars(&lines[i]);
            assert(lines[i as int]@ == ls[i as int]);
            assert(rest.take(i as int).drop_last() =~= rest.take(i - 1));
            assert(rest.take(i as int).last() == ls[i as int]);
            if line.len() > 0 {
                match split_once_chars(&line, '|') {
                    Some((fen, moves_str)) => {
                        let text_moves = string_from_chars(&moves_str);
                        let ws = split_words(text_moves.as_str());
                        let mut moves: Vec<Move> = Vec::new();
                        let mut k: usize = 0;
                        while k < ws.len()
                            invariant
                                0 <= k <= ws@.len(),
                                moves@ == uci_moves(ws.deep_view().take(k as int)),
                            decreases ws@.len() - k,
                        {
                            assert(ws.deep_view().take(k + 1).drop_last() =~= ws.deep_view().take(k as int));
                            assert(ws.deep_view().take(k + 1).last() == ws[k as int]@);
                            if let Some(m) = parse_uci(&ws[k]) {
                                moves.push(m);
                            }
                            k = k + 1;
                        }
                        assert(ws.deep_view().take(ws@.len() as int) =~= ws.deep_view());
                        let g = SavedGame { start_fen: string_from_chars(&fen), moves };
                        let ghost before = history.games@;
                        history.games.push(g);
                        assert(history@ =~= before.map_values(|x: SavedGame| x@).push(g@));
                    },
                    None => {},
                }
            }
            i = i + 1;
        }
        assert(rest.take(ls.len() - 1) =~= rest);
        let ghost all = history@;
        history.games.truncate(MAX_GAMES);
        assert(history@ =~= keep_recent(all));
        history
    }
}

/// Where history is loaded from / saved to. Kept as a trait so the application
/// logic never touches the filesystem directly (the device supplies a file
/// implementation; tests use the no-op store).
pub trait HistoryStore {
    fn load(&self) -> History;

    fn save(&self, history: &History);
}

/// A store that persists nothing (desktop/testing default).
pub struct NullStore;

impl HistoryStore for NullStore {
    fn load(&self) -> (h: History)
        ensures
            h@ == Seq::<(Seq<char>, Seq<Move>)>::empty(),
    {
        History::new()
    }

    fn save(&self, _history: &History) {
    }
}

} // verus!
