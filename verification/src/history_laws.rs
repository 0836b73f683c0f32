//! Laws of saved games: a saved copy of a game rebuilds that game, and the
//! history text reads back as the history that was written.

use vstd::prelude::*;

use crate::fen::{
    castling_text, ep_text, fen_pos, letter_if, placement_text, row_text, side_text, spec_parse_fen,
    spec_to_fen, FenFault, FenPos,
};
use crate::fen_laws::{law_fen_roundtrip, lemma_decimal_roundtrip, lemma_placement_split};
use crate::game::{same_request, spec_status, Game, Status};
use crate::history::{label_text, result_text};
use crate::types::Color;
use crate::fen_laws::{
    lemma_nonempty_all, lemma_split_concat, lemma_split_single, lemma_square_name_roundtrip, no_ws,
};
use crate::history::{
    canonical, clock_room, history_header, history_text, joined_ucis, line_game, line_games,
    parse_history_spec, parse_uci_spec, rebuilt, replay_chain, replay_step, saved_record, uci_moves,
    MAX_GAMES,
};
use crate::moves::{spec_uci, Move, MoveFlag};
use crate::text::{
    decimal_text, digit_char, is_digit,
    first_index, is_sep, is_ws, lemma_first_index, lemma_split_nonempty, lines_seq, split_seq,
    strip_cr, trim_seq, trim_start_seq, words,
};
use crate::types::{spec_square_name, Piece};
use crate::position::{follows, lemma_follows_functional, lemma_request_determines_move, Position};


verus! {

broadcast use crate::position::Position::lemma_board_len;

/// Two positions with the same FEN content are the same position.
proof fn lemma_fen_pos_injective(a: Position, b: Position)
    requires
        fen_pos(a) == fen_pos(b),
    ensures
        a == b,
{
    assert(a.squares =~= b.squares);
}

/// Every state of a replay of the saved moves of `g` is the corresponding
/// prefix of `g`: the first `k + 1` positions and the first `k` moves.
proof fn lemma_replay_tracks(g: Game, chain: Seq<(Seq<Position>, Seq<Move>)>, k: int)
    requires
        g.wf(),
        replay_chain(chain, g.played().map_values(|m: Move| canonical(m))),
        chain[0] == (seq![g.positions()[0]], Seq::<Move>::empty()),
        0 <= k <= g.played().len(),
    ensures
        chain[k] == (g.positions().take(k + 1), g.played().take(k)),
    decreases k,
{
    let ps = g.positions();
    let ms = g.played();
    let reqs = ms.map_values(|m: Move| canonical(m));
    if k == 0 {
        assert(ps.take(1) =~= seq![ps[0]]);
        assert(ms.take(0) =~= Seq::<Move>::empty());
    } else {
        let i = k - 1;
        lemma_replay_tracks(g, chain, i);
        let cur = chain[i];
        let next = chain[k];
        assert(replay_step(cur.0, cur.1, reqs[i], next.0, next.1));
        assert(ps[i].is_legal(ms[i]) && follows(ps[i], ms[i], ps[i + 1]) && spec_status(ps.take(i + 1))
            == Status::Ongoing);
        assert(cur.0.last() == ps[i]);
        assert(clock_room(ps[i]));
        assert(same_request(ms[i], reqs[i]));
        assert(ps[i].is_legal(ms[i]) && same_request(ms[i], reqs[i]));
        let chosen = next.1.last();
        assert(next.1 == cur.1.push(chosen));
        assert(ps[i].is_legal(chosen) && same_request(chosen, reqs[i]));
        lemma_request_determines_move(
            ps[i].board(),
            ps[i].side_to_move,
            ps[i].castling,
            ps[i].en_passant,
            chosen,
            ms[i],
        );
        assert(chosen == ms[i]);
        lemma_follows_functional(ps[i], ms[i], next.0.last(), ps[i + 1]);
        assert(next.0 =~= ps.take(k + 1));
        assert(next.1 =~= ms.take(k));
    }
}

/// Replaying a saved copy of a game rebuilds that game: the same positions
/// and the same moves (their flags re-derived on replay). A game's copy is its
/// starting FEN and its moves' squares and promotions, which is what
/// [`crate::history::SavedGame::from_game`] records and
/// [`crate::history::SavedGame::to_game`] replays; the starting position's
/// en-passant target must be a square of the board.
pub proof fn law_saved_game_replays(g: Game, g2: Game)
    requires
        g.wf(),
        g.positions()[0].en_passant matches Some(sq) ==> sq.valid(),
        rebuilt(saved_record(g).0, saved_record(g).1, g2),
    ensures
        g2.positions() == g.positions(),
        g2.played() == g.played(),
{
    let ps = g.positions();
    let ms = g.played();
    law_fen_roundtrip(ps[0]);
    assert(spec_parse_fen(saved_record(g).0) == Ok::<FenPos, FenFault>(fen_pos(ps[0])));
    lemma_fen_pos_injective(g2.positions()[0], ps[0]);
    let reqs = ms.map_values(|m: Move| canonical(m));
    let chain = choose|chain: Seq<(Seq<Position>, Seq<Move>)>|
        #[trigger] replay_chain(chain, reqs) && chain[0] == (seq![g2.positions()[0]], Seq::<Move>::empty())
            && chain.last() == (g2.positions(), g2.played());
    lemma_replay_tracks(g, chain, ms.len() as int);
    assert(ps.take(ms.len() + 1int) =~= ps);
    assert(ms.take(ms.len() as int) =~= ms);
}

// ---- The history text ----------------------------------------------------------

/// A saved game whose text line reads back as itself: its FEN holds no line
/// break and no `|` and does not start with whitespace, and its moves are on
/// the board with `Normal` flags, as saved games store them.
pub open spec fn storable(g: (Seq<char>, Seq<Move>)) -> bool {
    &&& forall|i: int| 0 <= i < g.0.len() ==> #[trigger] g.0[i] != '\n' && g.0[i] != '|'
    &&& g.0.len() > 0 ==> !is_ws(g.0[0])
    &&& forall|i: int| 0 <= i < g.1.len() ==> (#[trigger] g.1[i]).valid() && g.1[i].flag == MoveFlag::Normal
}

/// A game's line without its line break.
pub open spec fn line_content(g: (Seq<char>, Seq<Move>)) -> Seq<char> {
    g.0 + seq!['|'] + joined_ucis(g.1)
}

/// The coordinate text of a stored move reads back as the move; it has four
/// or five characters, none of them whitespace, `|` or a line break.
proof fn lemma_uci_roundtrip(m: Move)
    requires
        m.valid(),
        m.flag == MoveFlag::Normal,
    ensures
        parse_uci_spec(spec_uci(m)) == Some(m),
        4 <= spec_uci(m).len() <= 5,
        no_ws(spec_uci(m)),
        forall|i: int| 0 <= i < spec_uci(m).len() ==> #[trigger] spec_uci(m)[i] != '|' && spec_uci(m)[i] != '\n',
{
    lemma_square_name_roundtrip(m.from);
    lemma_square_name_roundtrip(m.to);
    let w = spec_uci(m);
    let base = spec_square_name(m.from) + spec_square_name(m.to);
    assert(w.subrange(0, 2) =~= spec_square_name(m.from));
    assert(w.subrange(2, 4) =~= spec_square_name(m.to));
    assert forall|i: int| 0 <= i < w.len() implies !is_ws(#[trigger] w[i]) && w[i] != '|' && w[i] != '\n' by {
        if i < 2 {
            assert(w[i] == spec_square_name(m.from)[i]);
        } else if i < 4 {
            assert(w[i] == spec_square_name(m.to)[i - 2]);
        }
    }
}

/// The words of the moves' joined coordinate texts are those texts.
proof fn lemma_split_joined(ms: Seq<Move>)
    requires
        ms.len() > 0,
        forall|i: int| 0 <= i < ms.len() ==> (#[trigger] ms[i]).valid() && ms[i].flag == MoveFlag::Normal,
    ensures
        split_seq(joined_ucis(ms), None) == ms.map_values(|m: Move| spec_uci(m)),
    decreases ms.len(),
{
    let last = ms.last();
    lemma_uci_roundtrip(last);
    assert forall|i: int| 0 <= i < spec_uci(last).len() implies !is_sep(#[trigger] spec_uci(last)[i], None) by {}
    lemma_split_single(spec_uci(last), None);
    if ms.len() == 1 {
        assert(ms.map_values(|m: Move| spec_uci(m)) =~= seq![spec_uci(ms[0])]);
    } else {
        let front = ms.drop_last();
        assert forall|i: int| 0 <= i < front.len() implies (#[trigger] front[i]).valid() && front[i].flag
            == MoveFlag::Normal by {
            assert(front[i] == ms[i]);
        }
        lemma_split_joined(front);
        lemma_split_concat(joined_ucis(front), ' ', spec_uci(last), None);
        assert(ms.map_values(|m: Move| spec_uci(m)) =~= front.map_values(|m: Move| spec_uci(m)) + seq![
            spec_uci(last),
        ]);
    }
}

/// Reading the moves' joined coordinate texts gives the moves back.
proof fn lemma_moves_text_roundtrip(ms: Seq<Move>)
    requires
        forall|i: int| 0 <= i < ms.len() ==> (#[trigger] ms[i]).valid() && ms[i].flag == MoveFlag::Normal,
    ensures
        uci_moves(words(joined_ucis(ms))) == ms,
{
    if ms.len() == 0 {
        let ts = seq![Seq::<char>::empty()];
        assert(split_seq(Seq::<char>::empty(), None) == ts);
        assert(ts.drop_last() =~= Seq::<Seq<char>>::empty());
        assert(crate::text::nonempty(ts.drop_last()) =~= Seq::<Seq<char>>::empty());
        assert(words(joined_ucis(ms)) =~= Seq::<Seq<char>>::empty());
    } else {
        lemma_split_joined(ms);
        let ws = ms.map_values(|m: Move| spec_uci(m));
        assert forall|i: int| 0 <= i < ws.len() implies (#[trigger] ws[i]).len() > 0 by {
            lemma_uci_roundtrip(ms[i]);
        }
        lemma_nonempty_all(ws);
        lemma_uci_moves(ms);
    }
}

/// Parsing each stored move's text gives the moves back.
proof fn lemma_uci_moves(ms: Seq<Move>)
    requires
        forall|i: int| 0 <= i < ms.len() ==> (#[trigger] ms[i]).valid() && ms[i].flag == MoveFlag::Normal,
    ensures
        uci_moves(ms.map_values(|m: Move| spec_uci(m))) == ms,
    decreases ms.len(),
{
    if ms.len() > 0 {
        let front = ms.drop_last();
        assert forall|i: int| 0 <= i < front.len() implies (#[trigger] front[i]).valid() && front[i].flag
            == MoveFlag::Normal by {
            assert(front[i] == ms[i]);
        }
        lemma_uci_moves(front);
        lemma_uci_roundtrip(ms.last());
        assert(ms.map_values(|m: Move| spec_uci(m)).drop_last() =~= front.map_values(|m: Move| spec_uci(m)));
        assert(front.push(ms.last()) =~= ms);
    }
}

/// Appending text without separators extends the last piece.
proof fn lemma_split_append_plain(p: Seq<char>, t: Seq<char>, sep: Option<char>)
    requires
        forall|i: int| 0 <= i < t.len() ==> !is_sep(#[trigger] t[i], sep),
    ensures
        split_seq(p + t, sep) == split_seq(p, sep).update(
            split_seq(p, sep).len() - 1,
            split_seq(p, sep).last() + t,
        ),
    decreases t.len(),
{
    lemma_split_nonempty(p, sep);
    if t.len() == 0 {
        assert(p + t =~= p);
        assert(split_seq(p, sep).last() + t =~= split_seq(p, sep).last());
        assert(split_seq(p, sep).update(split_seq(p, sep).len() - 1, split_seq(p, sep).last())
            =~= split_seq(p, sep));
    } else {
        let t2 = t.drop_last();
        assert forall|i: int| 0 <= i < t2.len() implies !is_sep(#[trigger] t2[i], sep) by {
            assert(t2[i] == t[i]);
        }
        lemma_split_append_plain(p, t2, sep);
        assert((p + t).drop_last() =~= p + t2);
        assert(!is_sep(t[t.len() - 1], sep));
        let r = split_seq(p, sep);
        assert((r.last() + t2).push(t.last()) =~= r.last() + t);
        assert(split_seq(p + t, sep) =~= r.update(r.len() - 1, r.last() + t));
    }
}

/// The characters of a game's line: the FEN's, `|`, and the moves' texts
/// separated by spaces; none is a line break.
proof fn lemma_content_chars(g: (Seq<char>, Seq<Move>))
    requires
        storable(g),
    ensures
        forall|i: int| 0 <= i < line_content(g).len() ==> #[trigger] line_content(g)[i] != '\n',
        line_content(g).len() > 0,
        !is_ws(line_content(g)[0]),
        !is_ws(line_content(g).last()),
        forall|i: int| 0 <= i < g.0.len() ==> #[trigger] line_content(g)[i] != '|',
        line_content(g)[g.0.len() as int] == '|',
{
    lemma_joined_chars(g.1);
    let c = line_content(g);
    let j = joined_ucis(g.1);
    assert forall|i: int| 0 <= i < c.len() implies #[trigger] c[i] != '\n' by {
        if i < g.0.len() {
            assert(c[i] == g.0[i]);
        } else if i > g.0.len() {
            assert(c[i] == j[i - g.0.len() - 1]);
        }
    }
    assert forall|i: int| 0 <= i < g.0.len() implies #[trigger] c[i] != '|' by {
        assert(c[i] == g.0[i]);
    }
    if g.0.len() > 0 {
        assert(c[0] == g.0[0]);
    }
    if j.len() > 0 {
        assert(c.last() == j.last());
    }
}

/// The joined coordinate texts hold no line break, and end in a character
/// that is not whitespace when there are moves.
proof fn lemma_joined_chars(ms: Seq<Move>)
    requires
        forall|i: int| 0 <= i < ms.len() ==> (#[trigger] ms[i]).valid() && ms[i].flag == MoveFlag::Normal,
    ensures
        forall|i: int| 0 <= i < joined_ucis(ms).len() ==> #[trigger] joined_ucis(ms)[i] != '\n',
        joined_ucis(ms).len() > 0 ==> !is_ws(joined_ucis(ms).last()),
        ms.len() > 0 ==> joined_ucis(ms).len() > 0,
    decreases ms.len(),
{
    if ms.len() > 0 {
        let last = ms.last();
        lemma_uci_roundtrip(last);
        let u = spec_uci(last);
        assert(!is_ws(u[u.len() - 1]));
        if ms.len() > 1 {
            let front = ms.drop_last();
            assert forall|i: int| 0 <= i < front.len() implies (#[trigger] front[i]).valid() && front[i].flag
                == MoveFlag::Normal by {
                assert(front[i] == ms[i]);
            }
            lemma_joined_chars(front);
            let jf = joined_ucis(front);
            let j = joined_ucis(ms);
            assert forall|i: int| 0 <= i < j.len() implies #[trigger] j[i] != '\n' by {
                if i < jf.len() {
                    assert(j[i] == jf[i]);
                } else if i > jf.len() {
                    assert(j[i] == u[i - jf.len() - 1]);
                }
            }
            assert(j.last() == u.last());
        }
    }
}

/// The pieces of the history text split at line breaks: the header, one per
/// game line, and an empty piece after the last line break.
proof fn lemma_split_history(gs: Seq<(Seq<char>, Seq<Move>)>)
    requires
        forall|i: int| 0 <= i < gs.len() ==> storable(#[trigger] gs[i]),
    ensures
        split_seq(history_text(gs), Some('\n')) == seq![history_header()] + gs.map_values(
            |g: (Seq<char>, Seq<Move>)| line_content(g),
        ) + seq![Seq::<char>::empty()],
    decreases gs.len(),
{
    reveal_strlit("chesskom-history v1");
    let h = history_header();
    if gs.len() == 0 {
        assert forall|i: int| 0 <= i < h.len() implies !is_sep(#[trigger] h[i], Some('\n')) by {}
        lemma_split_single(h, Some('\n'));
        assert(history_text(gs) =~= h + seq!['\n'] + Seq::<char>::empty());
        lemma_split_concat(h, '\n', Seq::<char>::empty(), Some('\n'));
        assert(split_seq(Seq::<char>::empty(), Some('\n')) == seq![Seq::<char>::empty()]);
        assert(gs.map_values(|g: (Seq<char>, Seq<Move>)| line_content(g)) =~= Seq::<Seq<char>>::empty());
        assert(seq![h] + seq![Seq::<char>::empty()] =~= seq![h] + gs.map_values(
            |g: (Seq<char>, Seq<Move>)| line_content(g),
        ) + seq![Seq::<char>::empty()]);
    } else {
        let front = gs.drop_last();
        let g = gs.last();
        assert forall|i: int| 0 <= i < front.len() implies storable(#[trigger] front[i]) by {
            assert(front[i] == gs[i]);
        }
        lemma_split_history(front);
        let p = history_text(front);
        let c = line_content(g);
        lemma_content_chars(g);
        assert(history_text(gs) =~= (p + c) + seq!['\n'] + Seq::<char>::empty());
        lemma_split_concat(p + c, '\n', Seq::<char>::empty(), Some('\n'));
        assert forall|i: int| 0 <= i < c.len() implies !is_sep(#[trigger] c[i], Some('\n')) by {}
        lemma_split_append_plain(p, c, Some('\n'));
        let r = split_seq(p, Some('\n'));
        assert(r.last() == Seq::<char>::empty());
        assert(Seq::<char>::empty() + c =~= c);
        let mapped = gs.map_values(|x: (Seq<char>, Seq<Move>)| line_content(x));
        let mapped_front = front.map_values(|x: (Seq<char>, Seq<Move>)| line_content(x));
        assert(mapped =~= mapped_front.push(c));
        assert(split_seq(history_text(gs), Some('\n')) =~= seq![h] + mapped + seq![Seq::<char>::empty()]);
    }
}

/// A line without leading or trailing whitespace is its own trim.
proof fn lemma_trim_clean(t: Seq<char>)
    requires
        t.len() > 0,
        !is_ws(t[0]),
        !is_ws(t.last()),
    ensures
        trim_seq(t) == t,
{
    assert(trim_start_seq(t) == t);
}

/// A game's line reads back as the game.
proof fn lemma_line_game(g: (Seq<char>, Seq<Move>))
    requires
        storable(g),
    ensures
        line_game(line_content(g)) == Some(g),
{
    let c = line_content(g);
    lemma_content_chars(g);
    lemma_trim_clean(c);
    lemma_first_index(c, '|');
    let n = g.0.len() as int;
    match first_index(c, '|') {
        Some(i) => {
            if i < n {
                assert(c[i] != '|');
            }
            if i > n {
                assert(c[n] == '|');
            }
            assert(i == n);
        },
        None => {
            assert(c[n] == '|');
        },
    }
    assert(c.take(n) =~= g.0);
    assert(c.skip(n + 1) =~= joined_ucis(g.1));
    lemma_moves_text_roundtrip(g.1);
}

/// The game lines read back as the games.
proof fn lemma_line_games(gs: Seq<(Seq<char>, Seq<Move>)>)
    requires
        forall|i: int| 0 <= i < gs.len() ==> storable(#[trigger] gs[i]),
    ensures
        line_games(gs.map_values(|g: (Seq<char>, Seq<Move>)| line_content(g))) == gs,
    decreases gs.len(),
{
    if gs.len() > 0 {
        let front = gs.drop_last();
        assert forall|i: int| 0 <= i < front.len() implies storable(#[trigger] front[i]) by {
            assert(front[i] == gs[i]);
        }
        lemma_line_games(front);
        lemma_line_game(gs.last());
        let ls = gs.map_values(|g: (Seq<char>, Seq<Move>)| line_content(g));
        assert(ls.drop_last() =~= front.map_values(|g: (Seq<char>, Seq<Move>)| line_content(g)));
        assert(front.push(gs.last()) =~= gs);
    }
}

/// Reading back the history text gives back the history: each game's FEN
/// and moves, in order. The history holds at most `MAX_GAMES` games, each
/// [`storable`]; [`crate::history::History::serialize`] writes this text and
/// [`crate::history::History::parse`] reads it.
pub proof fn law_history_text_roundtrip(gs: Seq<(Seq<char>, Seq<Move>)>)
    requires
        gs.len() <= MAX_GAMES,
        forall|i: int| 0 <= i < gs.len() ==> storable(#[trigger] gs[i]),
    ensures
        parse_history_spec(history_text(gs)) == gs,
{
    reveal_strlit("chesskom-history v1");
    let h = history_header();
    let text = history_text(gs);
    lemma_split_history(gs);
    let contents = gs.map_values(|g: (Seq<char>, Seq<Move>)| line_content(g));
    let ps = split_seq(text, Some('\n'));
    let ls = lines_seq(text);
    assert forall|i: int| 0 <= i < contents.len() implies strip_cr(#[trigger] contents[i]) == contents[i] by {
        lemma_content_chars(gs[i]);
        assert(is_ws('\r'));
    }
    assert(ls =~= seq![h] + contents) by {
        assert(ps.last() == Seq::<char>::empty());
        assert(strip_cr(h) == h);
        assert forall|i: int| 0 <= i < ls.len() implies #[trigger] ls[i] == (seq![h] + contents)[i] by {
            if i > 0 {
                assert(ps[i] == contents[i - 1]);
            }
        }
    }
    lemma_trim_clean(h);
    assert(ls.skip(1) =~= contents);
    lemma_line_games(gs);
}

// ---- Saved games are storable -----------------------------------------------------

/// No character of `s` is a line break or `|`.
pub open spec fn line_safe(s: Seq<char>) -> bool {
    forall|i: int| 0 <= i < s.len() ==> #[trigger] s[i] != '\n' && s[i] != '|'
}

proof fn lemma_line_safe_concat(a: Seq<char>, b: Seq<char>)
    requires
        line_safe(a),
        line_safe(b),
    ensures
        line_safe(a + b),
{
    assert forall|i: int| 0 <= i < (a + b).len() implies #[trigger] (a + b)[i] != '\n' && (a + b)[i] != '|' by {
        if i < a.len() {
            assert((a + b)[i] == a[i]);
        } else {
            assert((a + b)[i] == b[i - a.len()]);
        }
    }
}

/// The text of a rank holds no line break and no `|`.
proof fn lemma_row_text_safe(b: Seq<Option<Piece>>, r: int, f: int, e: nat)
    requires
        0 <= r < 8,
        b.len() == 64,
        e + (if f < 8 {
            8 - f
        } else {
            0
        }) <= 8,
        f <= 8,
    ensures
        line_safe(row_text(b, r, f, e)),
    decreases 8 - f,
{
    let pending = if e > 0 {
        seq![digit_char(e)]
    } else {
        Seq::<char>::empty()
    };
    assert(line_safe(pending));
    if f < 8 {
        match b[r * 8 + f] {
            Some(p) => {
                lemma_row_text_safe(b, r, f + 1, 0);
                let head = pending.push(p.spec_to_char());
                assert(line_safe(head));
                lemma_line_safe_concat(head, row_text(b, r, f + 1, 0));
            },
            None => {
                lemma_row_text_safe(b, r, f + 1, e + 1);
            },
        }
    }
}

/// The placement field holds no line break and no `|`.
proof fn lemma_placement_safe(b: Seq<Option<Piece>>, rank: int)
    requires
        b.len() == 64,
        0 <= rank < 8,
    ensures
        line_safe(placement_text(b, rank)),
    decreases rank,
{
    lemma_row_text_safe(b, rank, 0, 0);
    if rank > 0 {
        lemma_placement_safe(b, rank - 1);
        let row = row_text(b, rank, 0, 0);
        assert(line_safe(seq!['/']));
        lemma_line_safe_concat(row, seq!['/']);
        lemma_line_safe_concat(row + seq!['/'], placement_text(b, rank - 1));
    }
}

/// Decimal text holds digits only.
proof fn lemma_decimal_safe(n: nat)
    ensures
        line_safe(decimal_text(n)),
{
    lemma_decimal_roundtrip(n);
    let t = decimal_text(n);
    assert forall|i: int| 0 <= i < t.len() implies #[trigger] t[i] != '\n' && t[i] != '|' by {
        assert(is_digit(t[i]));
    }
}

/// The FEN text of a position holds no line break and no `|`, and starts
/// with a character that is not whitespace.
proof fn lemma_fen_text_safe(pos: Position)
    ensures
        line_safe(spec_to_fen(pos)),
        spec_to_fen(pos).len() > 0,
        !is_ws(spec_to_fen(pos)[0]),
{
    let b = pos.board();
    lemma_placement_safe(b, 7);
    lemma_placement_split(b, 7);
    lemma_decimal_safe(pos.halfmove_clock as nat);
    lemma_decimal_safe(pos.fullmove_number as nat);
    let sp = seq![' '];
    assert(line_safe(sp));
    assert(line_safe(side_text(pos.side_to_move)));
    let c = castling_text(pos.castling);
    assert(line_safe(c)) by {
        let t = letter_if(pos.castling.white_kingside, 'K') + letter_if(pos.castling.white_queenside, 'Q')
            + letter_if(pos.castling.black_kingside, 'k') + letter_if(pos.castling.black_queenside, 'q');
        assert(line_safe(letter_if(pos.castling.white_kingside, 'K')));
        assert(line_safe(letter_if(pos.castling.white_queenside, 'Q')));
        assert(line_safe(letter_if(pos.castling.black_kingside, 'k')));
        assert(line_safe(letter_if(pos.castling.black_queenside, 'q')));
        lemma_line_safe_concat(
            letter_if(pos.castling.white_kingside, 'K'),
            letter_if(pos.castling.white_queenside, 'Q'),
        );
        lemma_line_safe_concat(
            letter_if(pos.castling.white_kingside, 'K') + letter_if(pos.castling.white_queenside, 'Q'),
            letter_if(pos.castling.black_kingside, 'k'),
        );
        lemma_line_safe_concat(
            letter_if(pos.castling.white_kingside, 'K') + letter_if(pos.castling.white_queenside, 'Q')
                + letter_if(pos.castling.black_kingside, 'k'),
            letter_if(pos.castling.black_queenside, 'q'),
        );
    }
    assert(line_safe(ep_text(pos.en_passant)));
    let p = placement_text(b, 7);
    let d1 = decimal_text(pos.halfmove_clock as nat);
    let d2 = decimal_text(pos.fullmove_number as nat);
    let e = ep_text(pos.en_passant);
    let sd = side_text(pos.side_to_move);
    lemma_line_safe_concat(p, sp);
    lemma_line_safe_concat(p + sp, sd);
    lemma_line_safe_concat(p + sp + sd, sp);
    lemma_line_safe_concat(p + sp + sd + sp, c);
    lemma_line_safe_concat(p + sp + sd + sp + c, sp);
    lemma_line_safe_concat(p + sp + sd + sp + c + sp, e);
    lemma_line_safe_concat(p + sp + sd + sp + c + sp + e, sp);
    lemma_line_safe_concat(p + sp + sd + sp + c + sp + e + sp, d1);
    lemma_line_safe_concat(p + sp + sd + sp + c + sp + e + sp + d1, sp);
    lemma_line_safe_concat(p + sp + sd + sp + c + sp + e + sp + d1 + sp, d2);
    assert(spec_to_fen(pos) == p + sp + sd + sp + c + sp + e + sp + d1 + sp + d2);
    assert(spec_to_fen(pos)[0] == p[0]);
    crate::fen_laws::lemma_row_text_chars(b, 7, 0, 0);
    assert(p[0] == row_text(b, 7, 0, 0)[0]) by {
        if p.len() > 0 {
            assert(p == row_text(b, 7, 0, 0) + seq!['/'] + placement_text(b, 6));
        }
    }
}


/// A saved copy of a game played by the rules can be written to the history
/// text and read back: its FEN holds no line break or `|` and does not start
/// with whitespace, and its moves are on the board with `Normal` flags.
pub proof fn law_saved_game_is_storable(g: Game)
    requires
        g.wf(),
    ensures
        storable(saved_record(g)),
{
    let rec = saved_record(g);
    lemma_fen_text_safe(g.positions()[0]);
    assert forall|i: int| 0 <= i < rec.1.len() implies (#[trigger] rec.1[i]).valid() && rec.1[i].flag
        == MoveFlag::Normal by {
        assert(g.positions()[i].is_legal(g.played()[i]));
    }
}

/// A history of games saved from play reads back from its text as written.
pub proof fn law_saved_history_reads_back(gs: Seq<Game>)
    requires
        gs.len() <= MAX_GAMES,
        forall|i: int| 0 <= i < gs.len() ==> (#[trigger] gs[i]).wf(),
    ensures
        parse_history_spec(history_text(gs.map_values(|g: Game| saved_record(g)))) == gs.map_values(
            |g: Game| saved_record(g),
        ),
{
    let recs = gs.map_values(|g: Game| saved_record(g));
    assert forall|i: int| 0 <= i < recs.len() implies storable(#[trigger] recs[i]) by {
        law_saved_game_is_storable(gs[i]);
    }
    law_history_text_roundtrip(recs);
}

/// Text after the same head is told apart by what follows the head.
proof fn lemma_same_head(h: Seq<char>, x: Seq<char>, y: Seq<char>)
    ensures
        (h + x == h + y) <==> (x == y),
{
    if h + x == h + y {
        assert((h + x).skip(h.len() as int) =~= x);
        assert((h + y).skip(h.len() as int) =~= y);
    }
}

/// A saved game's label ends in the result of its replay: `DRAW` exactly when
/// the replayed game is drawn (stalemate, fifty-move rule, threefold
/// repetition or insufficient material), `UNFINISHED` exactly when it is still
/// going on, and `1-0` or `0-1` exactly when White or Black has mated.
pub proof fn law_label_shows_the_result(plies: nat, s: Status)
    ensures
        ({
            let head = decimal_text((plies + 1) / 2) + " MOVES  "@;
            &&& (label_text(plies, s) == head + "DRAW"@) <==> (s is Stalemate || s is FiftyMoveRule
                || s is ThreefoldRepetition || s is InsufficientMaterial)
            &&& (label_text(plies, s) == head + "UNFINISHED"@) <==> s is Ongoing
            &&& (label_text(plies, s) == head + "1-0"@) <==> s == Status::Checkmate { winner: Color::White }
            &&& (label_text(plies, s) == head + "0-1"@) <==> s == Status::Checkmate { winner: Color::Black }
        }),
{
    reveal_strlit("DRAW");
    reveal_strlit("UNFINISHED");
    reveal_strlit("1-0");
    reveal_strlit("0-1");
    let head = decimal_text((plies + 1) / 2) + " MOVES  "@;
    assert(label_text(plies, s) =~= head + result_text(s));
    lemma_same_head(head, result_text(s), "DRAW"@);
    lemma_same_head(head, result_text(s), "UNFINISHED"@);
    lemma_same_head(head, result_text(s), "1-0"@);
    lemma_same_head(head, result_text(s), "0-1"@);
    assert("DRAW"@ != "UNFINISHED"@);
    assert("DRAW"@ != "1-0"@);
    assert("DRAW"@ != "0-1"@);
    assert("UNFINISHED"@ != "1-0"@);
    assert("UNFINISHED"@ != "0-1"@);
    assert("1-0"@[0] != "0-1"@[0]);
}

} // verus!
