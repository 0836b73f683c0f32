//! The terminal game's session: which command a typed line names, what each
//! command does to the game and what it answers, and the screen shown before
//! each prompt. The front end only reads lines and prints what it is given.

use vstd::prelude::*;

use crate::game::{move_outcome, same_request, spec_status, Game, Status};
use crate::move_order::legal_list;
use crate::moves::Move;
use crate::terminal::{
    board, board_text, legal_moves_line, legal_moves_line_of, move_list, move_list_text, move_read,
    move_text_readable, move_text_sliceable, moves_from_line, moves_from_line_of, parse_move, sorted_by_squares,
    status_line, status_line_of,
};
use crate::text::{decimal_text, push_decimal, str_chars, string_from_chars, sub_chars, trim_chars, trim_seq};
use crate::types::Color;

verus! {

/// A command of the terminal game.
#[derive(Debug, Clone, PartialEq, Eq)]
pub enum Command {
    /// `quit`, `q` or `exit`.
    Quit,
    /// `help`, `h` or `?`.
    Help,
    /// `new`.
    NewGame,
    /// `flip`: toggle whether the board faces the side to move.
    Flip,
    /// `back` or `b`.
    Back,
    /// `forward` or `f`.
    Forward,
    /// `start`.
    Start,
    /// `end`.
    End,
    /// `moves`: all legal moves.
    Moves,
    /// `moves <sq>`: the legal moves from a square, named by the text.
    MovesFrom(String),
    /// Anything else: a move to play, as typed.
    Play(String),
    /// An empty or all-blank line.
    Blank,
}

/// `t` begins with `p`.
pub open spec fn begins_with(t: Seq<char>, p: Seq<char>) -> bool {
    t.len() >= p.len() && t.take(p.len() as int) == p
}

/// The line `line` names the command `c`: the line is read with surrounding
/// whitespace trimmed, as the command table lists the words.
pub open spec fn reads_as(line: Seq<char>, c: Command) -> bool {
    let t = trim_seq(line);
    if t.len() == 0 {
        c is Blank
    } else if t == "quit"@ || t == "q"@ || t == "exit"@ {
        c is Quit
    } else if t == "help"@ || t == "h"@ || t == "?"@ {
        c is Help
    } else if t == "new"@ {
        c is NewGame
    } else if t == "flip"@ {
        c is Flip
    } else if t == "back"@ || t == "b"@ {
        c is Back
    } else if t == "forward"@ || t == "f"@ {
        c is Forward
    } else if t == "start"@ {
        c is Start
    } else if t == "end"@ {
        c is End
    } else if t == "moves"@ {
        c is Moves
    } else if begins_with(t, "moves "@) {
        c matches Command::MovesFrom(sq) && sq@ == trim_seq(t.skip("moves "@.len() as int))
    } else {
        c matches Command::Play(m) && m@ == t
    }
}

/// The characters `v` are the text `lit`.
fn chars_are(v: &Vec<char>, lit: &str) -> (b: bool)
    ensures
        b == (v@ == lit@),
{
    let w = str_chars(lit);
    if v.len() != w.len() {
        return false;
    }
    let mut i: usize = 0;
    while i < v.len()
        invariant
            0 <= i <= v@.len(),
            v@.len() == w@.len(),
            w@ == lit@,
            forall|j: int| 0 <= j < i ==> v@[j] == w@[j],
        decreases v@.len() - i,
    {
        if v[i] != w[i] {
            return false;
        }
        i = i + 1;
    }
    assert(v@ =~= w@);
    true
}

/// The characters `v` begin with the text `lit`.
fn chars_begin_with(v: &Vec<char>, lit: &str) -> (b: bool)
    ensures
        b == begins_with(v@, lit@),
{
    let w = str_chars(lit);
    if v.len() < w.len() {
        return false;
    }
    let head = sub_chars(v, 0, w.len());
    let same = chars_are(&head, lit);
    assert(head@ =~= v@.take(lit@.len() as int));
    same
}

/// Read the command a typed line names.
pub fn parse_command(line: &str) -> (c: Command)
    ensures
        reads_as(line@, c),
{
    let t = trim_chars(&str_chars(line));
    if t.len() == 0 {
        Command::Blank
    } else if chars_are(&t, "quit") || chars_are(&t, "q") || chars_are(&t, "exit") {
        Command::Quit
    } else if chars_are(&t, "help") || chars_are(&t, "h") || chars_are(&t, "?") {
        Command::Help
    } else if chars_are(&t, "new") {
        Command::NewGame
    } else if chars_are(&t, "flip") {
        Command::Flip
    } else if chars_are(&t, "back") || chars_are(&t, "b") {
        Command::Back
    } else if chars_are(&t, "forward") || chars_are(&t, "f") {
        Command::Forward
    } else if chars_are(&t, "start") {
        Command::Start
    } else if chars_are(&t, "end") {
        Command::End
    } else if chars_are(&t, "moves") {
        Command::Moves
    } else if chars_begin_with(&t, "moves ") {
        let p = str_chars("moves ");
        let rest = sub_chars(&t, p.len(), t.len());
        assert(rest@ =~= t@.skip("moves "@.len() as int));
        Command::MovesFrom(string_from_chars(&trim_chars(&rest)))
    } else {
        Command::Play(string_from_chars(&t))
    }
}

/// The help text: the command table.
pub open spec fn help_spec() -> Seq<char> {
    "Commands:\n  <move>        play a move in coordinate form, e.g. e2e4, g1f3, e7e8q (promote)\n  moves         list all legal moves in the current position\n  moves <sq>    list legal moves from a square, e.g. 'moves e2'\n  back / b      rewind the view one half-move\n  forward / f   advance the view one half-move\n  start         jump the view to the initial position\n  end           jump the view back to the live game\n  flip          toggle auto-flip (board faces the side to move)\n  new           start a new game\n  help / h / ?  show this help\n  quit / q      exit"@
}

/// The help text: the command table.
pub fn help_text() -> (s: String)
    ensures
        s@ == help_spec(),
{
    "Commands:\n  <move>        play a move in coordinate form, e.g. e2e4, g1f3, e7e8q (promote)\n  moves         list all legal moves in the current position\n  moves <sq>    list legal moves from a square, e.g. 'moves e2'\n  back / b      rewind the view one half-move\n  forward / f   advance the view one half-move\n  start         jump the view to the initial position\n  end           jump the view back to the live game\n  flip          toggle auto-flip (board faces the side to move)\n  new           start a new game\n  help / h / ?  show this help\n  quit / q      exit".to_owned()
}

/// What the terminal game shows when it starts: its name, then the help.
pub fn opening_text() -> (s: String)
    ensures
        s@ == "chesskom \u{2014} local two-player chess\n\n"@ + help_spec() + "\n"@,
{
    let mut s = "chesskom \u{2014} local two-player chess\n\n".to_owned();
    let h = help_text();
    s.append(h.as_str());
    s.append("\n");
    s
}

/// The message for the auto-flip setting `on`.
pub open spec fn flip_message(on: bool) -> Seq<char> {
    if on {
        "Auto-flip on (board faces mover)."@
    } else {
        "Auto-flip off (white at bottom)."@
    }
}

/// The view of `g` is on its live position.
pub open spec fn viewing_live(g: Game) -> bool {
    g.cursor_index() == g.positions().len() - 1
}

/// A move matching the request `m` would be accepted in `g`: the game goes on
/// and a legal move of the live position has `m`'s squares and promotion.
pub open spec fn accepts(g: Game, m: Move) -> bool {
    spec_status(g.positions()) == Status::Ongoing && exists|x: Move| g.live().is_legal(x) && same_request(x, m)
}

/// The command `c` can be carried out on `g`: a move's text can be read, and
/// a move that would be accepted as Black's does not overflow the move number.
pub open spec fn step_ok(g: Game, c: Command) -> bool {
    c matches Command::Play(t) ==> move_text_sliceable(t@) && (move_read(t@) matches Ok(m) ==> (accepts(g, m)
        && g.live().side_to_move == Color::Black ==> g.live().fullmove_number < u32::MAX))
}

/// The texts of the lines `v`.
pub open spec fn lines_of(v: Seq<String>) -> Seq<Seq<char>> {
    v.map_values(|l: String| l@)
}

/// Carrying out `c` on the game `g` with auto-flip `flip` leaves the game
/// `g2` and auto-flip `flip2`, answers the lines `out`, and goes on unless
/// `on` is false (after `quit`).
pub open spec fn step_effect(
    g: Game,
    flip: bool,
    c: Command,
    g2: Game,
    flip2: bool,
    out: Seq<Seq<char>>,
    on: bool,
) -> bool {
    let same = g2 == g && flip2 == flip;
    match c {
        Command::Quit => !on && same && out.len() == 0,
        Command::Help => on && same && out == seq![help_spec()],
        Command::NewGame => on && g2.fresh() && flip2 == flip && out == seq!["New game started."@],
        Command::Flip => on && g2 == g && flip2 == !flip && out == seq![flip_message(!flip)],
        Command::Back => {
            let moved = g.cursor_index() > 0;
            &&& on
            &&& flip2 == flip
            &&& crate::game::stepped_back(g, g2, moved)
            &&& out == (if moved {
                Seq::empty()
            } else {
                seq!["Already at the start."@]
            })
        },
        Command::Forward => {
            let moved = g.cursor_index() + 1 < g.positions().len();
            &&& on
            &&& flip2 == flip
            &&& crate::game::stepped_forward(g, g2, moved)
            &&& out == (if moved {
                Seq::empty()
            } else {
                seq!["Already at the live position."@]
            })
        },
        Command::Start => {
            &&& on
            &&& flip2 == flip
            &&& g2.wf()
            &&& g2.positions() == g.positions()
            &&& g2.played() == g.played()
            &&& g2.cursor_index() == 0
            &&& out.len() == 0
        },
        Command::End => {
            &&& on
            &&& flip2 == flip
            &&& g2.wf()
            &&& g2.positions() == g.positions()
            &&& g2.played() == g.played()
            &&& viewing_live(g2)
            &&& out.len() == 0
        },
        Command::Moves => on && same && out == seq![legal_moves_line_of(sorted_by_squares(legal_list(g.live())))],
        Command::MovesFrom(sq) => on && same && out == seq![moves_from_line_of(legal_list(g.live()), sq@)],
        Command::Play(t) => match move_read(t@) {
            Err(e) => on && same && out == seq![e],
            Ok(m) => {
                &&& on
                &&& flip2 == flip
                &&& g2.wf()
                &&& move_outcome(g.positions(), g.played(), m, g2.positions(), g2.played())
                &&& g2.cursor_index() == (if accepts(g, m) {
                    g2.positions().len() - 1
                } else {
                    g.cursor_index()
                })
                &&& out == (if viewing_live(g) {
                    Seq::empty()
                } else {
                    seq!["(resuming from the live position)"@]
                }) + (if accepts(g, m) {
                    Seq::empty()
                } else {
                    seq!["Illegal move: "@ + t@]
                })
            },
        },
        Command::Blank => on && same && out.len() == 0,
    }
}

/// The side shown at the bottom of the board: the side to move of the live
/// position under auto-flip, else White.
pub open spec fn orientation(g: Game, flip: bool) -> Color {
    if flip {
        g.live().side_to_move
    } else {
        Color::White
    }
}

/// The board part of the screen: the viewed position's board with its last
/// move marked.
pub open spec fn screen_board(g: Game, flip: bool) -> Seq<char> {
    let k = g.cursor_index();
    let last = if k == 0 {
        None
    } else {
        Some(g.played()[k - 1])
    };
    board_text(g.positions()[k].board(), orientation(g, flip), last)
}

/// The status part of the screen: the status line, or which ply is viewed
/// while reviewing.
pub open spec fn screen_status(g: Game) -> Seq<char> {
    if viewing_live(g) {
        "\n"@ + status_line_of(g) + "\n"@
    } else {
        "\n[viewing ply "@ + decimal_text(g.cursor_index() as nat) + "/"@ + decimal_text(g.played().len())
            + "] \u{2014} 'end' to return to the live game\n"@
    }
}

/// The moves part of the screen: the moves so far, if any.
pub open spec fn screen_moves(g: Game) -> Seq<char> {
    let ml = move_list_text(g.played(), g.played().len() as int);
    if ml.len() > 0 {
        "moves: "@ + ml + "\n"@
    } else {
        Seq::empty()
    }
}

/// The note shown at the live position of a game that is over.
pub open spec fn screen_over(g: Game) -> Seq<char> {
    if viewing_live(g) && spec_status(g.positions()).spec_is_over() {
        "\nGame over. You can still 'back'/'forward' to review, or 'new' to restart.\n"@
    } else {
        Seq::empty()
    }
}

/// The screen shown before each prompt: a blank line; the viewed position's
/// board with its last move marked; the status line, or which ply is viewed
/// while reviewing; the moves so far, if any; a note when the game is over;
/// and the prompt.
pub open spec fn screen_of(g: Game, flip: bool) -> Seq<char> {
    "\n"@ + screen_board(g, flip) + screen_status(g) + screen_moves(g) + screen_over(g) + "\n> "@
}

/// A terminal game in progress: the game, and whether the board faces the
/// side to move.
pub struct Session {
    pub game: Game,
    pub auto_flip: bool,
}

impl Session {
    /// A new game, with the board facing the side to move.
    pub fn new() -> (s: Session)
        ensures
            s.game.fresh(),
            s.auto_flip,
    {
        Session { game: Game::new(), auto_flip: true }
    }

    /// The screen shown before the next prompt.
    pub fn screen_text(&self) -> (t: String)
        requires
            self.game.wf(),
        ensures
            t@ == screen_of(self.game, self.auto_flip),
    {
        let g = &self.game;
        let orient = if self.auto_flip {
            g.current().side_to_move
        } else {
            Color::White
        };
        let mut out = "\n".to_owned();
        let b = board(g.viewed(), orient, g.viewed_last_move());
        assert(b@ == screen_board(*g, self.auto_flip));
        out.append(b.as_str());
        let st = self.status_part();
        out.append(st.as_str());
        let ml = move_list(g);
        let mut mv = String::new();
        if ml.as_str().unicode_len() > 0 {
            mv.append("moves: ");
            mv.append(ml.as_str());
            mv.append("\n");
        }
        assert(mv@ == screen_moves(*g));
        out.append(mv.as_str());
        let mut over = String::new();
        if g.is_at_live() && g.status().is_over() {
            over.append("\nGame over. You can still 'back'/'forward' to review, or 'new' to restart.\n");
        }
        assert(over@ == screen_over(*g));
        out.append(over.as_str());
        out.append("\n> ");
        out
    }

    /// The status part of the screen.
    fn status_part(&self) -> (t: String)
        requires
            self.game.wf(),
        ensures
            t@ == screen_status(self.game),
    {
        let g = &self.game;
        let mut out = String::new();
        if g.is_at_live() {
            out.append("\n");
            let st = status_line(g);
            out.append(st.as_str());
            out.append("\n");
        } else {
            out.append("\n[viewing ply ");
            push_decimal(&mut out, g.viewed_ply() as u64);
            out.append("/");
            push_decimal(&mut out, g.ply() as u64);
            out.append("] \u{2014} 'end' to return to the live game\n");
        }
        out
    }

    /// Whether the command `c` can be carried out now (see [`step_ok`]).
    pub fn can_step(&self, c: &Command) -> (b: bool)
        requires
            self.game.wf(),
        ensures
            b == step_ok(self.game, *c),
    {
        match c {
            Command::Play(t) => {
                if !move_text_readable(t.as_str()) {
                    return false;
                }
                match parse_move(t.as_str()) {
                    Err(_) => true,
                    Ok(m) => {
                        let live = self.game.current();
                        if live.side_to_move == Color::White || live.fullmove_number < u32::MAX {
                            return true;
                        }
                        if self.game.status() != Status::Ongoing {
                            return true;
                        }
                        assert(move_read(t@) == Ok::<Move, Seq<char>>(m));
                        let legal = self.game.legal_moves();
                        let mut i: usize = 0;
                        while i < legal.len()
                            invariant
                                0 <= i <= legal@.len(),
                                *c == Command::Play(*t),
                                move_text_sliceable(t@),
                                move_read(t@) == Ok::<Move, Seq<char>>(m),
                                spec_status(self.game.positions()) == Status::Ongoing,
                                self.game.live().side_to_move == Color::Black,
                                self.game.live().fullmove_number == u32::MAX,
                                forall|x: Move| #[trigger] legal@.contains(x) <==> self.game.live().is_legal(x),
                                forall|j: int| 0 <= j < i ==> !same_request(#[trigger] legal@[j], m),
                            decreases legal@.len() - i,
                        {
                            let x = legal[i];
                            if x.from == m.from && x.to == m.to && x.promotion == m.promotion {
                                assert(legal@.contains(x));
                                assert(same_request(x, m));
                                assert(self.game.live().is_legal(x));
                                assert(accepts(self.game, m));
                                return false;
                            }
                            i = i + 1;
                        }
                        assert forall|x: Move| self.game.live().is_legal(x) implies !same_request(x, m) by {
                            assert(legal@.contains(x));
                            let j = choose|j: int| 0 <= j < legal@.len() && legal@[j] == x;
                        }
                        true
                    },
                }
            },
            _ => true,
        }
    }

    /// Carry out the command `c`; returns the lines to show, and whether the
    /// session goes on.
    pub fn step(&mut self, c: &Command) -> (r: (Vec<String>, bool))
        requires
            old(self).game.wf(),
            step_ok(old(self).game, *c),
        ensures
            final(self).game.wf(),
            step_effect(
                old(self).game,
                old(self).auto_flip,
                *c,
                final(self).game,
                final(self).auto_flip,
                lines_of(r.0@),
                r.1,
            ),
    {
        let mut out: Vec<String> = Vec::new();
        match c {
            Command::Quit => {
                assert(lines_of(out@) =~= Seq::<Seq<char>>::empty());
                return (out, false);
            },
            Command::Help => {
                out.push(help_text());
                assert(lines_of(out@) =~= seq![help_spec()]);
            },
            Command::NewGame => {
                self.game = Game::new();
                out.push("New game started.".to_owned());
                assert(lines_of(out@) =~= seq!["New game started."@]);
            },
            Command::Flip => {
                self.auto_flip = !self.auto_flip;
                if self.auto_flip {
                    out.push("Auto-flip on (board faces mover).".to_owned());
                } else {
                    out.push("Auto-flip off (white at bottom).".to_owned());
                }
                assert(lines_of(out@) =~= seq![flip_message(self.auto_flip)]);
            },
            Command::Back => {
                if !self.game.step_back() {
                    out.push("Already at the start.".to_owned());
                    assert(lines_of(out@) =~= seq!["Already at the start."@]);
                } else {
                    assert(lines_of(out@) =~= Seq::<Seq<char>>::empty());
                }
            },
            Command::Forward => {
                if !self.game.step_forward() {
                    out.push("Already at the live position.".to_owned());
                    assert(lines_of(out@) =~= seq!["Already at the live position."@]);
                } else {
                    assert(lines_of(out@) =~= Seq::<Seq<char>>::empty());
                }
            },
            Command::Start => {
                self.game.rewind_to_start();
                assert(lines_of(out@) =~= Seq::<Seq<char>>::empty());
            },
            Command::End => {
                self.game.forward_to_live();
                assert(lines_of(out@) =~= Seq::<Seq<char>>::empty());
            },
            Command::Moves => {
                let line = legal_moves_line(&self.game);
                out.push(line);
                assert(lines_of(out@) =~= seq![line@]);
            },
            Command::MovesFrom(sq) => {
                let line = moves_from_line(&self.game, sq.as_str());
                out.push(line);
                assert(lines_of(out@) =~= seq![line@]);
            },
            Command::Play(t) => {
                match parse_move(t.as_str()) {
                    Err(e) => {
                        let ghost ev = e@;
                        out.push(e);
                        assert(lines_of(out@) =~= seq![ev]);
                    },
                    Ok(m) => {
                        if !self.game.is_at_live() {
                            out.push("(resuming from the live position)".to_owned());
                            assert(lines_of(out@) =~= seq!["(resuming from the live position)"@]);
                        } else {
                            assert(lines_of(out@) =~= Seq::<Seq<char>>::empty());
                        }
                        let ghost before = out@;
                        match self.game.make_move(m) {
                            Ok(()) => {
                                assert(lines_of(out@) =~= lines_of(before) + Seq::<Seq<char>>::empty());
                            },
                            Err(_) => {
                                let mut msg = "Illegal move: ".to_owned();
                                msg.append(t.as_str());
                                out.push(msg);
                                assert(lines_of(out@) =~= lines_of(before) + seq!["Illegal move: "@ + t@]);
                            },
                        }
                    },
                }
            },
            Command::Blank => {
                assert(lines_of(out@) =~= Seq::<Seq<char>>::empty());
            },
        }
        (out, true)
    }
}

} // verus!
