//! Move representation.

use vstd::prelude::*;

use crate::types::{spec_square_name, PieceKind, Square};

verus! {

/// Extra semantics a move can carry that aren't obvious from `from`/`to` alone.
#[derive(Debug, Clone, Copy, PartialEq, Eq, Hash, Structural)]
pub enum MoveFlag {
    Normal,
    /// Pawn advancing two squares (sets an en-passant target).
    DoublePawnPush,
    /// Pawn capturing en passant (the captured pawn is not on `to`).
    EnPassant,
    CastleKingside,
    CastleQueenside,
}

/// A single move. Promotions carry the promoted-to piece kind.
#[derive(Debug, Clone, Copy, PartialEq, Eq, Hash, Structural)]
pub struct Move {
    pub from: Square,
    pub to: Square,
    pub promotion: Option<PieceKind>,
    pub flag: MoveFlag,
}

/// Coordinate notation of a move: both square names, then the promotion letter if any.
pub open spec fn spec_uci(m: Move) -> Seq<char> {
    let base = spec_square_name(m.from) + spec_square_name(m.to);
    match m.promotion {
        Some(k) => base.push(k.spec_to_char()),
        None => base,
    }
}

impl Move {
    /// Both squares lie on the board.
    pub open spec fn valid(self) -> bool {
        self.from.valid() && self.to.valid()
    }

    pub fn normal(from: Square, to: Square) -> (m: Move)
        ensures
            m == (Move { from, to, promotion: None, flag: MoveFlag::Normal }),
    {
        Move { from, to, promotion: None, flag: MoveFlag::Normal }
    }

    /// Long algebraic / UCI-style coordinate string, e.g. `e2e4`, `e7e8q`.
    pub fn to_uci(self) -> (s: String)
        ensures
            s@ == spec_uci(self),
    {
        let mut s = self.from.to_algebraic();
        let t = self.to.to_algebraic();
        s.append(t.as_str());
        if let Some(p) = self.promotion {
            crate::text::push_char(&mut s, p.to_char());
        }
        s
    }
}

} // verus!
