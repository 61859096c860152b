pub mod types;
pub mod text;
pub mod castling;
pub mod zobrist;
pub mod board;
pub mod apply_move;
pub mod laws;
pub mod attack_laws;
pub mod movegen;
pub mod fen;
pub mod eval;
pub mod tt;
pub mod search;
pub mod quiescence;
pub mod search_laws;
pub mod minimax;
pub mod alphabeta;
pub mod engine;
pub mod uci;
pub mod puzzle;
