//! Chess rules, move generation, game state with rewind, FEN, saved-game
//! history, and the board/menu geometry and interaction logic of a small
//! chess client.

pub mod app;
pub mod board;
pub mod canvas;
pub mod fen;
pub mod fen_laws;
pub mod game;
pub mod game_laws;
pub mod history;
pub mod history_laws;
pub mod layout;
pub mod menu;
pub mod move_order;
pub mod moves;
pub mod png;
pub mod position;
pub mod rules;
pub mod session;
pub mod terminal;
pub mod text;
pub mod touch;
pub mod types;

pub use types::{Color, Piece, PieceKind, Square};
pub use moves::{Move, MoveFlag};
pub use position::{CastlingRights, Position};
pub use game::{Game, IllegalMove, Status};
pub use fen::{parse_fen, to_fen, FenError};
